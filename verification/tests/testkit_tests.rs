use std::time::Duration;

use siyuan_harness::testkit::{
    base_url_for, generate_token, sweep_action, token_from_nanos, SiyuanContainerBuilder, SweepAction,
    DEFAULT_IMAGE, TEMP_PREFIX,
};

#[test]
fn generated_tokens_differ() {
    let a = generate_token();
    let mut b = generate_token();
    let mut tries = 0;
    while b == a && tries < 100_000 {
        b = generate_token();
        tries += 1;
    }
    assert_ne!(a, b);
    assert!(a.starts_with("tk-"));
}

#[test]
fn token_is_hex_of_the_clock() {
    assert_eq!(token_from_nanos(0), "tk-0");
    assert_eq!(token_from_nanos(255), "tk-ff");
    assert_eq!(token_from_nanos(0x1a2b), "tk-1a2b");
}

#[test]
fn builder_setters_and_run_args() {
    let b = SiyuanContainerBuilder::defaults(None);
    assert_eq!(b.image_name(), DEFAULT_IMAGE);
    assert_eq!(b.auth_code(), "testkit");
    assert_eq!(b.timeout(), Duration::from_secs(60));
    let b = b.image("img:1").access_auth_code("code").ready_timeout(Duration::from_secs(5));
    assert_eq!(b.image_name(), "img:1");
    assert_eq!(b.auth_code(), "code");
    assert_eq!(b.timeout(), Duration::from_secs(5));
    let c = b.clone();
    assert_eq!(c.image_name(), "img:1");
    assert_eq!(
        c.run_args("/tmp/ws", 4321),
        vec![
            "--rm",
            "-v",
            "/tmp/ws:/siyuan/workspace:Z",
            "-p",
            "127.0.0.1:4321:6806",
            "img:1",
            "--workspace=/siyuan/workspace",
            "--accessAuthCode=code",
        ]
    );
    assert_eq!(base_url_for(6806), "http://127.0.0.1:6806");
    assert_eq!(SiyuanContainerBuilder::defaults(Some("x".into())).image_name(), "x");
}

#[test]
fn sweep_removes_only_stale_kit_directories() {
    let name = format!("{TEMP_PREFIX}abc");
    assert_eq!(sweep_action(Some(&name), Some(true), Some(0)), SweepAction::KeepRecent);
    assert_eq!(sweep_action(Some(&name), Some(true), Some(599_999_999_999)), SweepAction::KeepRecent);
    assert_eq!(sweep_action(Some(&name), Some(true), Some(600_000_000_000)), SweepAction::Remove);
    assert_eq!(sweep_action(Some(&name), Some(false), Some(u128::MAX)), SweepAction::Skip);
    assert_eq!(sweep_action(Some(&name), None, Some(u128::MAX)), SweepAction::Skip);
    assert_eq!(sweep_action(Some(&name), Some(true), None), SweepAction::Skip);
    assert_eq!(sweep_action(Some("other"), Some(true), Some(u128::MAX)), SweepAction::Skip);
    assert_eq!(sweep_action(None, Some(true), Some(u128::MAX)), SweepAction::Skip);
}

#[test]
fn sweep_skips_recent_dirs() {
    let dir = tempfile::Builder::new().prefix(TEMP_PREFIX).tempdir().expect("create marker dir");
    let marker = dir.path().to_path_buf();
    let name = marker.file_name().and_then(|n| n.to_str()).expect("utf-8 name").to_string();
    assert_eq!(sweep_action(Some(&name), Some(marker.is_dir()), Some(0)), SweepAction::KeepRecent);
    assert!(marker.exists(), "fresh testkit dir must survive the sweep; got missing path {}", marker.display());
}
