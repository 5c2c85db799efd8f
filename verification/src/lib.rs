//! Verified core of an agent-facing harness for the SiYuan note kernel:
//! identifiers, block metadata, document bundles, pagination, heading
//! sections, doc-tree assembly and rendering, tag search, link-graph
//! traversal decisions, read-only SQL screening and MCP argument handling.

pub mod text;
pub mod ids;
pub mod block;

pub mod position;
pub mod error;
pub mod pagination;
pub mod section;
pub mod container;
pub mod doc_meta;

pub mod doc_tree;
pub mod tree_md;
pub mod tag;
pub mod graph;
pub mod load;
pub mod bundle;
pub mod relations;
pub mod mcp;
pub mod args;
pub mod requests;
pub mod tools;
pub mod sql_guard;
pub mod agent_md;
pub mod testkit;
