[package]
name = "siyuan_harness"
version = "0.1.0"
edition = "2021"
publish = false

[dependencies]
regex = "=1.13.1"
serde_json = "=1.0.154"
sqlparser = "=0.63.0"
serde = { version = "=1.0.229", features = ["derive"] }
rmcp = { version = "=3.8.0", features = ["server", "transport-io"] }
tokio = { version = "=1.54.1", features = ["full"] }
anyhow = "=1.0.104"
clap = { version = "=4.6.7", features = ["derive", "env"] }
tracing = "=0.1.44"
tracing-subscriber = { version = "=0.3.23", features = ["env-filter"] }
thiserror = "=2.0.21"
tempfile = "=3.27.0"
reqwest = { version = "=0.12.28", default-features = false, features = ["json", "multipart"] }
