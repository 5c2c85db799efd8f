//! The page of a document handed to agents: document metadata, paging
//! figures and the blocks of the page.

use vstd::prelude::*;

use crate::block::BlockNode;
use crate::ids::{BlockId, NotebookId};

verus! {

/// A page of one document.
#[derive(Debug)]
pub struct DocBundle {
    /// Always [`DocBundle::SCHEMA`].
    pub schema: String,
    pub doc: DocMeta,
    pub page: PageInfo,
    pub blocks: Vec<BlockNode>,
}

impl DocBundle {
    /// Schema tag of every bundle.
    pub const SCHEMA: &'static str = "siyuan-agent.doc-bundle.v1";
}

/// The document a bundle belongs to.
#[derive(Debug)]
pub struct DocMeta {
    pub id: BlockId,
    pub notebook_id: NotebookId,
    pub hpath: String,
    pub title: String,
}

/// Paging figures of a bundle.
#[derive(Debug, Clone, Copy)]
pub struct PageInfo {
    /// 1-indexed.
    pub page: usize,
    pub page_size: usize,
    pub total_blocks: usize,
    pub total_pages: usize,
}

} // verus!
