//! Decisions of the MCP tool layer: argument checks and caps, the mapping
//! of harness errors to protocol faults, where an inserted or moved block
//! goes, the end of a heading's section, and the hints attached to results.

use vstd::prelude::*;

use crate::agent_md::{doc_text, render_doc};
use crate::block::{id_texts, BlockNode, BlockType};
use crate::bundle::DocBundle;
use crate::error::{debug_id_list, error_message, SiyuanError};
use crate::graph::Direction;
use crate::ids::{is_id_text, BlockId, NotebookId};
use crate::pagination::PageRequest;
use crate::position::{Position, PositionKind};
use crate::section::{is_heading, populate_section_children, section_of, views};
use crate::text::{
    chars_has_prefix, chars_has_suffix, chars_of, contains_seq, dec_digits, dec_u64,
    debug_str_text, has_prefix, has_suffix, owned, push_str, str_eq, blank, is_blank,
};

verus! {

/// Deepest graph traversal accepted from a tool call.
pub const MAX_GRAPH_DEPTH: u64 = 8;

/// Largest page size accepted from a tool call.
pub const MAX_PAGE_SIZE: u64 = 1000;

/// Largest search limit accepted from a tool call.
pub const MAX_SEARCH_LIMIT: u64 = 1000;

/// The protocol's error classes.
#[derive(Debug, Clone, Copy, PartialEq, Eq, Structural)]
pub enum FaultKind {
    InvalidParams,
    InvalidRequest,
    InternalError,
}

/// A tool failure as the protocol reports it.
#[derive(Debug)]
pub struct McpFault {
    pub kind: FaultKind,
    pub message: String,
}

/// Model of a fault: class and message.
pub type FaultView = (FaultKind, Seq<char>);

impl View for McpFault {
    type V = FaultView;

    open spec fn view(&self) -> FaultView {
        (self.kind, self.message@)
    }
}

fn fault(kind: FaultKind, message: String) -> (r: McpFault)
    ensures
        r@ == (kind, message@),
{
    McpFault { kind, message }
}

fn fault_with(kind: FaultKind, prefix: &str, rest: &str) -> (r: McpFault)
    ensures
        r@ == (kind, prefix@ + rest@),
{
    let mut m = owned(prefix);
    push_str(&mut m, rest);
    McpFault { kind, message: m }
}

/// The fault for a kernel error message of a well-known shape: failed
/// authentication; missing block, tree or notebook; or a request the
/// kernel rejected as malformed.
pub open spec fn api_msg_fault(msg: Seq<char>) -> Option<FaultView> {
    if has_prefix(msg, "Auth failed"@) {
        Some((FaultKind::InvalidRequest, "authentication failed"@))
    } else if msg == "block not found"@ || msg == "tree not found"@ || contains_seq(msg, "Content block with id ["@) {
        Some((FaultKind::InvalidParams, "not found: "@ + msg))
    } else if msg == "Query notebook failed"@ || msg == "notebook not found"@ || (has_prefix(msg, "opened notebook ["@)
        && has_suffix(msg, "] not found"@)) {
        Some((FaultKind::InvalidParams, "not found: "@ + msg))
    } else if msg == "invalid ID argument"@ || has_prefix(msg, "Field ["@) || has_prefix(msg, "Parses request ["@) {
        Some((FaultKind::InvalidParams, "kernel rejected request: "@ + msg))
    } else {
        None
    }
}

fn starts_with(s: &[char], p: &str) -> (r: bool)
    ensures
        r == has_prefix(s@, p@),
{
    let pc = chars_of(p);
    chars_has_prefix(s, pc.as_slice())
}

fn ends_with(s: &[char], p: &str) -> (r: bool)
    ensures
        r == has_suffix(s@, p@),
{
    let pc = chars_of(p);
    chars_has_suffix(s, pc.as_slice())
}

fn contains_text(s: &[char], p: &str) -> (r: bool)
    ensures
        r == contains_seq(s@, p@),
{
    let pc = chars_of(p);
    match crate::text::chars_find(s, pc.as_slice()) {
        Some(_) => true,
        None => false,
    }
}

/// Classifies a kernel error message; `None` for a message of no known shape.
pub fn classify_api_msg(msg: &str) -> (r: Option<McpFault>)
    ensures
        match r {
            Some(f) => api_msg_fault(msg@) == Some(f@),
            None => api_msg_fault(msg@) is None,
        },
{
    let cs = chars_of(msg);
    let c = cs.as_slice();
    if starts_with(c, "Auth failed") {
        return Some(fault(FaultKind::InvalidRequest, owned("authentication failed")));
    }
    if str_eq(msg, "block not found") || str_eq(msg, "tree not found") || contains_text(c, "Content block with id [") {
        return Some(fault_with(FaultKind::InvalidParams, "not found: ", msg));
    }
    if str_eq(msg, "Query notebook failed") || str_eq(msg, "notebook not found") || (starts_with(c, "opened notebook [")
        && ends_with(c, "] not found")) {
        return Some(fault_with(FaultKind::InvalidParams, "not found: ", msg));
    }
    if str_eq(msg, "invalid ID argument") || starts_with(c, "Field [") || starts_with(c, "Parses request [") {
        return Some(fault_with(FaultKind::InvalidParams, "kernel rejected request: ", msg));
    }
    None
}

/// The fault for a harness error: authentication, lookups and parse errors
/// are the caller's; kernel messages of a known shape are classified, and
/// everything else is an internal error carrying the error's message.
pub open spec fn siyuan_fault(e: SiyuanError) -> FaultView {
    match e {
        SiyuanError::Auth => (FaultKind::InvalidRequest, "authentication failed"@),
        SiyuanError::NotFound(m) => (FaultKind::InvalidParams, "not found: "@ + m@),
        SiyuanError::AmbiguousPath { hpath, candidates } => (
            FaultKind::InvalidParams,
            "ambiguous path "@ + hpath@ + ": "@ + debug_id_list(id_texts(candidates@)),
        ),
        SiyuanError::Parse(m) => (FaultKind::InvalidParams, "parse error: "@ + m@),
        SiyuanError::Api { code, msg } => match api_msg_fault(msg@) {
            Some(f) => f,
            None => (FaultKind::InternalError, "siyuan kernel: code="@ + crate::text::dec_int(code as int) + ": "@ + msg@),
        },
        SiyuanError::SqlUnavailable => (FaultKind::InternalError, "siyuan SQL endpoint disabled (publish mode?)"@),
        _ => (FaultKind::InternalError, error_message(e)),
    }
}

/// Maps a harness error to a protocol fault; see [`siyuan_fault`].
pub fn siyuan_to_mcp(e: SiyuanError) -> (r: McpFault)
    ensures
        r@ == siyuan_fault(e),
{
    match e {
        SiyuanError::Auth => fault(FaultKind::InvalidRequest, owned("authentication failed")),
        SiyuanError::NotFound(m) => fault_with(FaultKind::InvalidParams, "not found: ", m.as_str()),
        SiyuanError::AmbiguousPath { hpath, candidates } => {
            let mut m = owned("ambiguous path ");
            push_str(&mut m, hpath.as_str());
            push_str(&mut m, ": ");
            let list = crate::error::debug_id_list_exec(&candidates);
            push_str(&mut m, list.as_str());
            fault(FaultKind::InvalidParams, m)
        },
        SiyuanError::Parse(m) => fault_with(FaultKind::InvalidParams, "parse error: ", m.as_str()),
        SiyuanError::Api { code, msg } => match classify_api_msg(msg.as_str()) {
            Some(f) => f,
            None => {
                let mut m = owned("siyuan kernel: code=");
                let c = crate::text::dec_i64(code as i64);
                push_str(&mut m, c.as_str());
                push_str(&mut m, ": ");
                push_str(&mut m, msg.as_str());
                fault(FaultKind::InternalError, m)
            },
        },
        SiyuanError::SqlUnavailable => fault(FaultKind::InternalError, owned("siyuan SQL endpoint disabled (publish mode?)")),
        other => {
            let m = other.to_string();
            fault(FaultKind::InternalError, m)
        },
    }
}

/// The fault for a missing or mistyped argument.
pub fn missing_argument(key: &str) -> (r: McpFault)
    ensures
        r@ == (FaultKind::InvalidParams, "missing or invalid `"@ + key@ + "`"@),
{
    let mut m = owned("missing or invalid `");
    push_str(&mut m, key);
    push_str(&mut m, "`");
    fault(FaultKind::InvalidParams, m)
}

/// Message of a rejected id text.
pub open spec fn bad_id_text(s: Seq<char>) -> Seq<char> {
    "invalid SiYuan block id: "@ + debug_str_text(s)
        + " (expected 14-digit timestamp + '-' + 7 lowercase alnum)"@
}

/// Parses a block-id argument; a malformed id is the caller's fault.
pub fn block_id_arg(s: &str) -> (r: Result<BlockId, McpFault>)
    ensures
        r is Ok <==> is_id_text(s@),
        r matches Ok(id) ==> id@ == s@,
        r matches Err(f) ==> f@ == (FaultKind::InvalidParams, "invalid block id: "@ + bad_id_text(s@)),
{
    match BlockId::parse(s) {
        Ok(id) => Ok(id),
        Err(e) => {
            let m = e.to_string();
            Err(fault_with(FaultKind::InvalidParams, "invalid block id: ", m.as_str()))
        },
    }
}

/// Parses a notebook-id argument; a malformed id is the caller's fault.
pub fn notebook_id_arg(s: &str) -> (r: Result<NotebookId, McpFault>)
    ensures
        r is Ok <==> is_id_text(s@),
        r matches Ok(id) ==> id@ == s@,
        r matches Err(f) ==> f@ == (FaultKind::InvalidParams, "invalid notebook id: "@ + bad_id_text(s@)),
{
    match NotebookId::parse(s) {
        Ok(id) => Ok(id),
        Err(e) => {
            let m = e.to_string();
            Err(fault_with(FaultKind::InvalidParams, "invalid notebook id: ", m.as_str()))
        },
    }
}

/// The hpath of a resolve request: `/` is the notebook root; any other
/// text that is empty after trimming white space is refused.
pub fn check_resolve_hpath(hpath: &str) -> (r: Result<(), McpFault>)
    ensures
        r is Err <==> (hpath@ != "/"@ && blank(hpath@)),
        r matches Err(f) ==> f@ == (FaultKind::InvalidParams, "`hpath` must not be empty"@),
{
    if !str_eq(hpath, "/") && is_blank(hpath) {
        return Err(fault(FaultKind::InvalidParams, owned("`hpath` must not be empty")));
    }
    Ok(())
}

/// The sources of a document move: at least one is required.
pub fn check_move_sources(from_paths: &Vec<String>) -> (r: Result<(), McpFault>)
    ensures
        r is Err <==> from_paths@.len() == 0,
        r matches Err(f) ==> f@ == (FaultKind::InvalidParams, "`from_paths` must contain at least one source path"@),
{
    if from_paths.len() == 0 {
        return Err(fault(FaultKind::InvalidParams, owned("`from_paths` must contain at least one source path")));
    }
    Ok(())
}

/// The `Debug` name of a position kind.
pub open spec fn kind_debug_name(k: PositionKind) -> Seq<char> {
    match k {
        PositionKind::AfterBlock => "AfterBlock"@,
        PositionKind::BeforeBlock => "BeforeBlock"@,
        PositionKind::AppendChild => "AppendChild"@,
        PositionKind::PrependChild => "PrependChild"@,
        PositionKind::AppendSection => "AppendSection"@,
        PositionKind::PrependSection => "PrependSection"@,
        PositionKind::AppendDoc => "AppendDoc"@,
        PositionKind::PrependDoc => "PrependDoc"@,
    }
}

fn kind_debug(k: PositionKind) -> (r: &'static str)
    ensures
        r@ == kind_debug_name(k),
{
    match k {
        PositionKind::AfterBlock => "AfterBlock",
        PositionKind::BeforeBlock => "BeforeBlock",
        PositionKind::AppendChild => "AppendChild",
        PositionKind::PrependChild => "PrependChild",
        PositionKind::AppendSection => "AppendSection",
        PositionKind::PrependSection => "PrependSection",
        PositionKind::AppendDoc => "AppendDoc",
        PositionKind::PrependDoc => "PrependDoc",
    }
}

/// Where a block move goes: after the anchor (`previous`) or as the last
/// child of the anchor (`parent`); other kinds are refused.
pub fn move_target(kind: PositionKind, anchor: BlockId) -> (r: Result<(Option<BlockId>, Option<BlockId>), McpFault>)
    ensures
        kind == PositionKind::AfterBlock ==> (r matches Ok((Some(p), None)) && p@ == anchor@),
        kind == PositionKind::AppendChild ==> (r matches Ok((None, Some(p))) && p@ == anchor@),
        (kind != PositionKind::AfterBlock && kind != PositionKind::AppendChild) ==> (r matches Err(f) && f@ == (
            FaultKind::InvalidParams,
            "position '"@ + kind_debug_name(kind)
                + "' is not supported for siyuan_block_move; use `after_block` or `append_child`"@,
        )),
{
    match kind {
        PositionKind::AfterBlock => Ok((Some(anchor), None)),
        PositionKind::AppendChild => Ok((None, Some(anchor))),
        other => {
            let mut m = owned("position '");
            push_str(&mut m, kind_debug(other));
            push_str(&mut m, "' is not supported for siyuan_block_move; use `after_block` or `append_child`");
            Err(fault(FaultKind::InvalidParams, m))
        },
    }
}

/// The kernel call that places inserted markdown.
#[derive(Debug)]
pub enum InsertCall {
    /// Insert after this block.
    After(BlockId),
    /// Insert before this block.
    Before(BlockId),
    /// Append as the last child of this block.
    Append(BlockId),
    /// Prepend as the first child of this block.
    Prepend(BlockId),
    /// Insert after the last block of this heading's section.
    AfterSectionOf(BlockId),
}

/// The call for an insertion position: before/after a block directly; a
/// child or document position appends or prepends to the anchor; the end
/// of a section needs the section resolved first; the start of a section is
/// right after the heading.
pub open spec fn insert_call_of(p: Position) -> (u8, Seq<char>) {
    match p {
        Position::AfterBlock { block_id } => (0, block_id@),
        Position::BeforeBlock { block_id } => (1, block_id@),
        Position::AppendChild { container_id } => (2, container_id@),
        Position::PrependChild { container_id } => (3, container_id@),
        Position::AppendSection { heading_id } => (4, heading_id@),
        Position::PrependSection { heading_id } => (0, heading_id@),
        Position::AppendDoc { doc_id } => (2, doc_id@),
        Position::PrependDoc { doc_id } => (3, doc_id@),
    }
}

/// Model of an insert call: its shape and its id.
pub open spec fn insert_call_view(c: InsertCall) -> (u8, Seq<char>) {
    match c {
        InsertCall::After(id) => (0, id@),
        InsertCall::Before(id) => (1, id@),
        InsertCall::Append(id) => (2, id@),
        InsertCall::Prepend(id) => (3, id@),
        InsertCall::AfterSectionOf(id) => (4, id@),
    }
}

/// Plans the kernel call for an insertion; see [`insert_call_of`].
pub fn insert_call(position: Position) -> (r: InsertCall)
    ensures
        insert_call_view(r) == insert_call_of(position),
        position matches Position::PrependDoc { doc_id } ==> (r matches InsertCall::Prepend(a) && a@ == doc_id@),
        position matches Position::PrependChild { container_id } ==> (r matches InsertCall::Prepend(a) && a@ == container_id@),
        position matches Position::AppendDoc { doc_id } ==> (r matches InsertCall::Append(a) && a@ == doc_id@),
        position matches Position::AppendChild { container_id } ==> (r matches InsertCall::Append(a) && a@ == container_id@),
        position matches Position::AfterBlock { block_id } ==> (r matches InsertCall::After(a) && a@ == block_id@),
        position matches Position::BeforeBlock { block_id } ==> (r matches InsertCall::Before(a) && a@ == block_id@),
        position matches Position::PrependSection { heading_id } ==> (r matches InsertCall::After(a) && a@ == heading_id@),
        position matches Position::AppendSection { heading_id } ==> (r matches InsertCall::AfterSectionOf(a) && a@ == heading_id@),
{
    match position {
        Position::AfterBlock { block_id } => InsertCall::After(block_id),
        Position::BeforeBlock { block_id } => InsertCall::Before(block_id),
        Position::AppendChild { container_id } => InsertCall::Append(container_id),
        Position::PrependChild { container_id } => InsertCall::Prepend(container_id),
        Position::AppendSection { heading_id } => InsertCall::AfterSectionOf(heading_id),
        Position::PrependSection { heading_id } => InsertCall::After(heading_id),
        Position::AppendDoc { doc_id } => InsertCall::Append(doc_id),
        Position::PrependDoc { doc_id } => InsertCall::Prepend(doc_id),
    }
}

/// Where an insertion lands does not depend on whether the anchor is a
/// document or another container: a document position plans the same call
/// as the child position of the same end, the two ends plan different
/// calls, and right after a heading is right after that block.
pub proof fn lemma_insert_ends(x: BlockId)
    ensures
        insert_call_of(Position::PrependDoc { doc_id: x }) == insert_call_of(Position::PrependChild { container_id: x }),
        insert_call_of(Position::AppendDoc { doc_id: x }) == insert_call_of(Position::AppendChild { container_id: x }),
        insert_call_of(Position::PrependChild { container_id: x }) != insert_call_of(Position::AppendChild { container_id: x }),
        insert_call_of(Position::PrependSection { heading_id: x }) == insert_call_of(Position::AfterBlock { block_id: x }),
        insert_call_of(Position::AfterBlock { block_id: x }) != insert_call_of(Position::BeforeBlock { block_id: x }),
        insert_call_of(Position::AppendSection { heading_id: x }) != insert_call_of(Position::AfterBlock { block_id: x }),
        insert_call_of(Position::PrependChild { container_id: x }) == insert_call_view(InsertCall::Prepend(x)),
        insert_call_of(Position::AppendChild { container_id: x }) == insert_call_view(InsertCall::Append(x)),
{
}

/// The statement that looks up a heading's document and type.
pub open spec fn heading_probe_query(id: Seq<char>) -> Seq<char> {
    "SELECT root_id, type FROM blocks WHERE id = '"@ + id + "'"@
}

/// Builds the statement that looks up a heading's document and type.
pub fn heading_probe_sql(heading_id: &BlockId) -> (r: String)
    ensures
        r@ == heading_probe_query(heading_id@),
{
    let mut s = owned("SELECT root_id, type FROM blocks WHERE id = '");
    push_str(&mut s, heading_id.as_str());
    push_str(&mut s, "'");
    s
}

/// A row of the heading probe.
#[derive(Debug)]
pub struct ProbeRow {
    pub root_id: String,
    pub block_type: String,
}

/// Checks the heading probe: the first row must exist and be a heading;
/// its document id is returned.
pub fn heading_document(rows: &Vec<ProbeRow>) -> (r: Result<BlockId, McpFault>)
    ensures
        rows@.len() == 0 ==> (r matches Err(f) && f@ == (FaultKind::InvalidParams, "heading not found"@)),
        rows@.len() > 0 && rows@[0].block_type@ != "h"@ ==> (r matches Err(f) && f@ == (
            FaultKind::InvalidParams,
            "anchor for append_section must be a heading block"@,
        )),
        rows@.len() > 0 && rows@[0].block_type@ == "h"@ && !is_id_text(rows@[0].root_id@) ==> (r matches Err(f) && f@ == (
            FaultKind::InvalidParams,
            "invalid root id: "@ + bad_id_text(rows@[0].root_id@),
        )),
        rows@.len() > 0 && rows@[0].block_type@ == "h"@ && is_id_text(rows@[0].root_id@) ==> (r matches Ok(id)
            && id@ == rows@[0].root_id@),
{
    if rows.len() == 0 {
        return Err(fault(FaultKind::InvalidParams, owned("heading not found")));
    }
    let row = &rows[0];
    if !str_eq(row.block_type.as_str(), "h") {
        return Err(fault(FaultKind::InvalidParams, owned("anchor for append_section must be a heading block")));
    }
    match BlockId::parse(row.root_id.as_str()) {
        Ok(id) => Ok(id),
        Err(e) => {
            let m = e.to_string();
            Err(fault_with(FaultKind::InvalidParams, "invalid root id: ", m.as_str()))
        },
    }
}

/// Index of the first block with id `id`.
pub open spec fn first_with_id(bs: Seq<crate::block::BlockNodeView>, id: Seq<char>) -> Option<int>
    decreases bs.len(),
{
    if bs.len() == 0 {
        None
    } else {
        match first_with_id(bs.drop_last(), id) {
            Some(i) => Some(i),
            None => if bs.last().id == id { Some(bs.len() - 1) } else { None },
        }
    }
}

/// Where appending to a heading's section goes, given the document's
/// blocks in document order: after the last block of the section, or after
/// the heading itself when its section is empty.
pub open spec fn section_end_of(bs: Seq<crate::block::BlockNodeView>, heading: Seq<char>) -> Result<Seq<char>, FaultView> {
    match first_with_id(bs, heading) {
        None => Err((FaultKind::InvalidParams, "heading not in doc"@)),
        Some(i) => if !is_heading(bs[i]) {
            Err((FaultKind::InvalidParams, "anchor is not a heading after re-resolution"@))
        } else if section_of(bs, i).len() > 0 {
            Ok(section_of(bs, i).last())
        } else {
            Ok(heading)
        },
    }
}

proof fn lemma_first_with_id_prefix(bs: Seq<crate::block::BlockNodeView>, id: Seq<char>, n: int)
    requires
        0 <= n < bs.len(),
        first_with_id(bs.take(n), id) is None,
    ensures
        first_with_id(bs.take(n + 1), id) == (if bs[n].id == id { Some(n) } else { None::<int> }),
{
    assert(bs.take(n + 1).drop_last() =~= bs.take(n));
}

proof fn lemma_first_with_id_extends(bs: Seq<crate::block::BlockNodeView>, id: Seq<char>, n: int)
    requires
        0 <= n < bs.len(),
        first_with_id(bs.take(n + 1), id) == Some(n),
    ensures
        first_with_id(bs, id) == Some(n),
    decreases bs.len(),
{
    if bs.len() > n + 1 {
        assert(bs.drop_last().take(n + 1) =~= bs.take(n + 1));
        lemma_first_with_id_extends(bs.drop_last(), id, n);
    } else {
        assert(bs.take(n + 1) =~= bs);
    }
}

/// Resolves where appending to a heading's section goes; see
/// [`section_end_of`]. The blocks are those of the heading's document in
/// document order.
pub fn section_end(blocks: Vec<BlockNode>, heading_id: &BlockId) -> (r: Result<BlockId, McpFault>)
    ensures
        match section_end_of(views(blocks@), heading_id@) {
            Ok(id) => r matches Ok(b) && b@ == id,
            Err(f) => r matches Err(g) && g@ == f,
        },
{
    let ghost orig = views(blocks@);
    let mut bs = blocks;
    populate_section_children(&mut bs);
    let n = bs.len();
    let mut i: usize = 0;
    assert(orig.take(0) =~= Seq::<crate::block::BlockNodeView>::empty());
    while i < n
        invariant
            n == bs@.len(),
            n == orig.len(),
            orig == views(blocks@),
            i <= n,
            first_with_id(orig.take(i as int), heading_id@) is None,
            forall|k: int| 0 <= k < n ==> (#[trigger] bs@[k]@).id == orig[k].id,
            forall|k: int| 0 <= k < n ==> (#[trigger] bs@[k]@).block_type == orig[k].block_type,
            forall|k: int| 0 <= k < n && is_heading(orig[k]) ==> (#[trigger] bs@[k]@).section_children
                == section_of(orig, k),
        decreases n - i,
    {
        proof {
            lemma_first_with_id_prefix(orig, heading_id@, i as int);
        }
        assert(bs@[i as int]@.id == orig[i as int].id);
        assert(bs@[i as int]@.block_type == orig[i as int].block_type);
        if bs[i].id.same(heading_id) {
            proof {
                lemma_first_with_id_extends(orig, heading_id@, i as int);
            }
            if bs[i].block_type != BlockType::Heading {
                return Err(fault(FaultKind::InvalidParams, owned("anchor is not a heading after re-resolution")));
            }
            let sc = &bs[i].section_children;
            if sc.len() > 0 {
                let last = sc[sc.len() - 1].duplicate();
                assert(id_texts(sc@).last() == sc@[sc@.len() - 1]@);
                return Ok(last);
            }
            return Ok(heading_id.duplicate());
        }
        i = i + 1;
    }
    assert(orig.take(n as int) =~= orig);
    Err(fault(FaultKind::InvalidParams, owned("heading not in doc")))
}

/// The next-page hint of a paged document read, only when a later page
/// exists.
pub open spec fn next_page_text(current: nat, total: nat) -> Option<Seq<char>> {
    if current < total {
        Some("Pagination: this is page "@ + dec_digits(current) + " of "@ + dec_digits(total)
            + ". Call again with page="@ + dec_digits(current + 1)
            + " to fetch the next page. Use format=json for structured access to block metadata."@)
    } else {
        None
    }
}

/// The hint pointing at the next page, when there is one.
pub fn next_page_hint(current: usize, total: usize, format: &str) -> (r: Option<String>)
    ensures
        match r {
            Some(s) => next_page_text(current as nat, total as nat) == Some(s@),
            None => next_page_text(current as nat, total as nat) is None,
        },
{
    if current < total {
        let mut s = owned("Pagination: this is page ");
        let c = dec_u64(current as u64);
        push_str(&mut s, c.as_str());
        push_str(&mut s, " of ");
        let t = dec_u64(total as u64);
        push_str(&mut s, t.as_str());
        push_str(&mut s, ". Call again with page=");
        let n = dec_u64((current + 1) as u64);
        push_str(&mut s, n.as_str());
        push_str(&mut s, " to fetch the next page. Use format=json for structured access to block metadata.");
        Some(s)
    } else {
        None
    }
}

/// The page a document read asks for: page 1 and size 50 unless given,
/// the size capped at [`MAX_PAGE_SIZE`]; the page is not capped, since
/// pagination clamps it.
pub fn doc_page_request(page: Option<u64>, page_size: Option<u64>) -> (r: PageRequest)
    ensures
        r.page == (match page { Some(p) => p as usize, None => 1usize }),
        r.page_size == (match page_size {
            Some(s) => if s > MAX_PAGE_SIZE { MAX_PAGE_SIZE as usize } else { s as usize },
            None => 50usize,
        }),
{
    let p: usize = match page {
        Some(p) => p as usize,
        None => 1,
    };
    let s: usize = match page_size {
        Some(s) => if s > MAX_PAGE_SIZE { MAX_PAGE_SIZE as usize } else { s as usize },
        None => 50,
    };
    PageRequest { page: p, page_size: s }
}

/// The traversal depth of a graph request: 1 unless given, capped at
/// [`MAX_GRAPH_DEPTH`].
pub fn graph_depth_arg(depth: Option<u64>) -> (r: usize)
    ensures
        r as int == (match depth {
            Some(d) => if d > MAX_GRAPH_DEPTH { MAX_GRAPH_DEPTH as int } else { d as int },
            None => 1,
        }),
{
    match depth {
        Some(d) => if d > MAX_GRAPH_DEPTH { MAX_GRAPH_DEPTH as usize } else { d as usize },
        None => 1,
    }
}

/// The direction of a graph request: `outgoing` or `incoming` when named,
/// both otherwise.
pub fn direction_arg(direction: Option<&str>) -> (r: Direction)
    ensures
        r == (match direction {
            Some(s) => if s@ == "outgoing"@ {
                Direction::Outgoing
            } else if s@ == "incoming"@ {
                Direction::Incoming
            } else {
                Direction::Both
            },
            None => Direction::Both,
        }),
{
    match direction {
        Some(s) => if str_eq(s, "outgoing") {
            Direction::Outgoing
        } else if str_eq(s, "incoming") {
            Direction::Incoming
        } else {
            Direction::Both
        },
        None => Direction::Both,
    }
}

/// The limit of a search request: 50 unless given, capped at
/// [`MAX_SEARCH_LIMIT`]. Zero is refused.
pub fn search_limit_arg(limit: Option<u64>) -> (r: Result<usize, McpFault>)
    ensures
        (match limit { Some(l) => l == 0, None => false }) <==> r is Err,
        r matches Err(f) ==> f@ == (FaultKind::InvalidParams, "`limit` must be greater than 0"@),
        r matches Ok(n) ==> n as int == (match limit {
            Some(l) => if l > MAX_SEARCH_LIMIT { MAX_SEARCH_LIMIT as int } else { l as int },
            None => 50,
        }),
{
    let raw: u64 = match limit {
        Some(l) => l,
        None => 50,
    };
    if raw == 0 {
        return Err(fault(FaultKind::InvalidParams, owned("`limit` must be greater than 0")));
    }
    Ok(if raw > MAX_SEARCH_LIMIT { MAX_SEARCH_LIMIT as usize } else { raw as usize })
}

/// How a document read renders its bundle.
#[derive(Debug, Clone, Copy, PartialEq, Eq, Structural)]
pub enum DocFormat {
    /// Compact JSON of the bundle.
    Json,
    /// Indented JSON of the bundle.
    JsonPretty,
    /// The agent markdown of [`render_doc`]; every other format name.
    AgentMd,
}

/// The rendering a format name selects.
pub open spec fn doc_format_of(format: Seq<char>) -> DocFormat {
    if format == "json"@ {
        DocFormat::Json
    } else if format == "json-pretty"@ {
        DocFormat::JsonPretty
    } else {
        DocFormat::AgentMd
    }
}

/// Reads a format name: `json`, `json-pretty`, anything else agent markdown.
pub fn doc_format(format: &str) -> (r: DocFormat)
    ensures
        r == doc_format_of(format@),
{
    if str_eq(format, "json") {
        DocFormat::Json
    } else if str_eq(format, "json-pretty") {
        DocFormat::JsonPretty
    } else {
        DocFormat::AgentMd
    }
}

/// The reply to a document read: the format named in the call, the
/// rendered content, and the next-page hint when a later page exists.
pub struct DocReply {
    pub format: String,
    pub content: String,
    pub hint: Option<String>,
}

/// Model of a reply: format, content and hint.
pub type DocReplyView = (Seq<char>, Seq<char>, Option<Seq<char>>);

impl View for DocReply {
    type V = DocReplyView;

    open spec fn view(&self) -> DocReplyView {
        (self.format@, self.content@, match self.hint {
            Some(h) => Some(h@),
            None => None,
        })
    }
}

/// The reply to a read of `bundle` in `format`, where `json_text` is the
/// bundle's JSON in the form the format asks for.
pub open spec fn doc_reply_of(format: Seq<char>, bundle: DocBundle, json_text: Option<Seq<char>>) -> DocReplyView {
    (
        format,
        match doc_format_of(format) {
            DocFormat::AgentMd => doc_text(bundle),
            _ => json_text.unwrap(),
        },
        next_page_text(bundle.page.page as nat, bundle.page.total_pages as nat),
    )
}

/// Puts together the reply to a document read. A JSON format takes the
/// bundle's JSON as `json_text`; agent markdown is rendered here.
pub fn doc_reply(format: String, bundle: &DocBundle, json_text: Option<String>) -> (r: DocReply)
    requires
        doc_format_of(format@) != DocFormat::AgentMd ==> json_text is Some,
    ensures
        r@ == doc_reply_of(format@, *bundle, match json_text {
            Some(t) => Some(t@),
            None => None,
        }),
{
    let kind = doc_format(format.as_str());
    let content = match kind {
        DocFormat::AgentMd => render_doc(bundle),
        _ => match json_text {
            Some(t) => t,
            None => owned(""),
        },
    };
    let hint = next_page_hint(bundle.page.page, bundle.page.total_pages, format.as_str());
    DocReply { format, content, hint }
}

} // verus!
