//! What a tool call asks of the kernel, worked out from its arguments
//! before any kernel call is made. Each plan checks the arguments in the
//! order the tool reads them, so the first problem found is the one
//! reported.

use vstd::prelude::*;

use crate::args::{
    attr_strings, attr_value_message, ensure_object, fields_of, object_at, object_field, opt_text_field,
    optional_string, optional_u64, required_string, string_array, string_at, strings_field, text_field,
    u64_field, field, get, ArgMap, ArgValue,
};
use crate::doc_meta::DocLookup;
use crate::doc_tree::Depth;
use crate::graph::Direction;
use crate::ids::{is_id_text, BlockId, NotebookId};
use crate::mcp::{
    bad_id_text, block_id_arg, check_move_sources, check_resolve_hpath, direction_arg, doc_page_request,
    graph_depth_arg, kind_debug_name, move_target, notebook_id_arg, search_limit_arg, FaultKind, FaultView,
    McpFault, MAX_GRAPH_DEPTH, MAX_PAGE_SIZE, MAX_SEARCH_LIMIT,
};
use crate::pagination::PageRequest;
use crate::position::{anchor_of, kind_named, kind_of, parse_position_kind, unknown_kind_message, Position, PositionKind};
use crate::tag::{escape_quotes, escape_tag};
use crate::text::{blank, dec_digits, dec_u64, owned, push_str, str_eq};

verus! {

/// A block-id argument, or its refusal.
pub open spec fn block_id_of(s: Seq<char>) -> Result<Seq<char>, FaultView> {
    if is_id_text(s) {
        Ok(s)
    } else {
        Err((FaultKind::InvalidParams, "invalid block id: "@ + bad_id_text(s)))
    }
}

/// A notebook-id argument, or its refusal.
pub open spec fn notebook_id_of(s: Seq<char>) -> Result<Seq<char>, FaultView> {
    if is_id_text(s) {
        Ok(s)
    } else {
        Err((FaultKind::InvalidParams, "invalid notebook id: "@ + bad_id_text(s)))
    }
}

/// A position-kind argument, or its refusal.
pub open spec fn kind_of_text(s: Seq<char>) -> Result<PositionKind, FaultView> {
    match kind_named(s) {
        Some(k) => Ok(k),
        None => Err((FaultKind::InvalidParams, unknown_kind_message(s))),
    }
}

fn kind_arg(s: &str) -> (r: Result<PositionKind, McpFault>)
    ensures
        match kind_of_text(s@) {
            Ok(k) => r == Ok::<PositionKind, McpFault>(k),
            Err(f) => r matches Err(x) && x@ == f,
        },
{
    match parse_position_kind(s) {
        Ok(k) => Ok(k),
        Err(message) => Err(McpFault { kind: FaultKind::InvalidParams, message }),
    }
}

fn block_arg(s: &str) -> (r: Result<BlockId, McpFault>)
    ensures
        match block_id_of(s@) {
            Ok(t) => r matches Ok(id) && id@ == t,
            Err(f) => r matches Err(x) && x@ == f,
        },
{
    block_id_arg(s)
}

fn notebook_arg(s: &str) -> (r: Result<NotebookId, McpFault>)
    ensures
        match notebook_id_of(s@) {
            Ok(t) => r matches Ok(id) && id@ == t,
            Err(f) => r matches Err(x) && x@ == f,
        },
{
    notebook_id_arg(s)
}

/// A block move: the block, and the block it goes after or the block it
/// becomes the last child of.
#[derive(Debug)]
pub struct BlockMove {
    pub id: BlockId,
    pub previous: Option<BlockId>,
    pub parent: Option<BlockId>,
}

/// Model of a block move: the texts of its ids.
pub type BlockMoveView = (Seq<char>, Option<Seq<char>>, Option<Seq<char>>);

impl View for BlockMove {
    type V = BlockMoveView;

    open spec fn view(&self) -> BlockMoveView {
        (self.id@, crate::block::opt_id(self.previous), crate::block::opt_id(self.parent))
    }
}

/// The move a call asks for: `id`, `position` and `anchor` are read in
/// that order; only `after_block` and `append_child` can move a block.
pub open spec fn block_move_plan(args: ArgValue) -> Result<BlockMoveView, FaultView> {
    match fields_of(args) {
        Err(f) => Err(f),
        Ok(e) => match text_field(e, "id"@) {
            Err(f) => Err(f),
            Ok(id_text) => match block_id_of(id_text) {
                Err(f) => Err(f),
                Ok(id) => match text_field(e, "position"@) {
                    Err(f) => Err(f),
                    Ok(position) => match text_field(e, "anchor"@) {
                        Err(f) => Err(f),
                        Ok(anchor_text) => match kind_of_text(position) {
                            Err(f) => Err(f),
                            Ok(k) => match block_id_of(anchor_text) {
                                Err(f) => Err(f),
                                Ok(anchor) => if k == PositionKind::AfterBlock {
                                    Ok((id, Some(anchor), None))
                                } else if k == PositionKind::AppendChild {
                                    Ok((id, None, Some(anchor)))
                                } else {
                                    Err((
                                        FaultKind::InvalidParams,
                                        "position '"@ + kind_debug_name(k)
                                            + "' is not supported for siyuan_block_move; use `after_block` or `append_child`"@,
                                    ))
                                },
                            },
                        },
                    },
                },
            },
        },
    }
}

/// Works out the move a call asks for; see [`block_move_plan`].
pub fn block_move_request(args: ArgValue) -> (r: Result<BlockMove, McpFault>)
    ensures
        match block_move_plan(args) {
            Ok(v) => r matches Ok(m) && m@ == v,
            Err(f) => r matches Err(x) && x@ == f,
        },
{
    let map = match ensure_object(args) {
        Ok(m) => m,
        Err(f) => return Err(f),
    };
    let id_text = match required_string(&map, "id") {
        Ok(s) => s,
        Err(f) => return Err(f),
    };
    let id = match block_arg(id_text.as_str()) {
        Ok(id) => id,
        Err(f) => return Err(f),
    };
    let position = match required_string(&map, "position") {
        Ok(s) => s,
        Err(f) => return Err(f),
    };
    let anchor_text = match required_string(&map, "anchor") {
        Ok(s) => s,
        Err(f) => return Err(f),
    };
    let kind = match kind_arg(position.as_str()) {
        Ok(k) => k,
        Err(f) => return Err(f),
    };
    let anchor = match block_arg(anchor_text.as_str()) {
        Ok(a) => a,
        Err(f) => return Err(f),
    };
    match move_target(kind, anchor) {
        Ok((previous, parent)) => Ok(BlockMove { id, previous, parent }),
        Err(f) => Err(f),
    }
}

/// An insertion: the markdown and where it goes.
#[derive(Debug)]
pub struct BlockInsert {
    pub markdown: String,
    pub position: Position,
}

/// Model of an insertion: markdown, position kind and anchor text.
pub type BlockInsertView = (Seq<char>, PositionKind, Seq<char>);

impl View for BlockInsert {
    type V = BlockInsertView;

    open spec fn view(&self) -> BlockInsertView {
        (self.markdown@, kind_of(self.position), anchor_of(self.position)@)
    }
}

/// The insertion a call asks for: `markdown`, `position` and `anchor` are
/// read in that order, then the kind and the anchor are parsed.
pub open spec fn block_insert_plan(args: ArgValue) -> Result<BlockInsertView, FaultView> {
    match fields_of(args) {
        Err(f) => Err(f),
        Ok(e) => match text_field(e, "markdown"@) {
            Err(f) => Err(f),
            Ok(markdown) => match text_field(e, "position"@) {
                Err(f) => Err(f),
                Ok(position) => match text_field(e, "anchor"@) {
                    Err(f) => Err(f),
                    Ok(anchor_text) => match kind_of_text(position) {
                        Err(f) => Err(f),
                        Ok(k) => match block_id_of(anchor_text) {
                            Err(f) => Err(f),
                            Ok(anchor) => Ok((markdown, k, anchor)),
                        },
                    },
                },
            },
        },
    }
}

/// Works out the insertion a call asks for; see [`block_insert_plan`].
pub fn block_insert_request(args: ArgValue) -> (r: Result<BlockInsert, McpFault>)
    ensures
        match block_insert_plan(args) {
            Ok(v) => r matches Ok(m) && m@ == v,
            Err(f) => r matches Err(x) && x@ == f,
        },
{
    let map = match ensure_object(args) {
        Ok(m) => m,
        Err(f) => return Err(f),
    };
    let markdown = match required_string(&map, "markdown") {
        Ok(s) => s,
        Err(f) => return Err(f),
    };
    let position = match required_string(&map, "position") {
        Ok(s) => s,
        Err(f) => return Err(f),
    };
    let anchor_text = match required_string(&map, "anchor") {
        Ok(s) => s,
        Err(f) => return Err(f),
    };
    let kind = match kind_arg(position.as_str()) {
        Ok(k) => k,
        Err(f) => return Err(f),
    };
    let anchor = match block_arg(anchor_text.as_str()) {
        Ok(a) => a,
        Err(f) => return Err(f),
    };
    Ok(BlockInsert { markdown, position: Position::from_kind(kind, anchor) })
}

/// A document read: the document, the page asked for and the output format.
#[derive(Debug)]
pub struct DocRead {
    pub id: BlockId,
    pub page: PageRequest,
    pub format: String,
}

/// Model of a document read: id, page, page size and format.
pub type DocReadView = (Seq<char>, usize, usize, Seq<char>);

impl View for DocRead {
    type V = DocReadView;

    open spec fn view(&self) -> DocReadView {
        (self.id@, self.page.page, self.page.page_size, self.format@)
    }
}

/// The read a call asks for: page 1 and size 50 unless given, the size
/// capped at [`MAX_PAGE_SIZE`], the format `agent-md` unless a string is
/// given.
pub open spec fn doc_read_plan(args: ArgValue) -> Result<DocReadView, FaultView> {
    match fields_of(args) {
        Err(f) => Err(f),
        Ok(e) => match text_field(e, "id"@) {
            Err(f) => Err(f),
            Ok(id_text) => match block_id_of(id_text) {
                Err(f) => Err(f),
                Ok(id) => Ok((
                    id,
                    match u64_field(e, "page"@) {
                        Some(p) => p as usize,
                        None => 1usize,
                    },
                    match u64_field(e, "page_size"@) {
                        Some(n) => if n > MAX_PAGE_SIZE { MAX_PAGE_SIZE as usize } else { n as usize },
                        None => 50usize,
                    },
                    match opt_text_field(e, "format"@) {
                        Some(t) => t,
                        None => "agent-md"@,
                    },
                )),
            },
        },
    }
}

/// Works out the read a call asks for; see [`doc_read_plan`].
pub fn doc_read_request(args: ArgValue) -> (r: Result<DocRead, McpFault>)
    ensures
        match doc_read_plan(args) {
            Ok(v) => r matches Ok(m) && m@ == v,
            Err(f) => r matches Err(x) && x@ == f,
        },
{
    let map = match ensure_object(args) {
        Ok(m) => m,
        Err(f) => return Err(f),
    };
    let id_text = match required_string(&map, "id") {
        Ok(s) => s,
        Err(f) => return Err(f),
    };
    let id = match block_arg(id_text.as_str()) {
        Ok(id) => id,
        Err(f) => return Err(f),
    };
    let page = doc_page_request(optional_u64(&map, "page"), optional_u64(&map, "page_size"));
    let format = match optional_string(&map, "format") {
        Some(s) => s,
        None => owned("agent-md"),
    };
    Ok(DocRead { id, page, format })
}

/// Model of a document lookup: an id, or a notebook and a human path.
pub enum LookupView {
    ById(Seq<char>),
    ByHpath(Seq<char>, Seq<char>),
}

/// Model of a [`DocLookup`].
pub open spec fn lookup_view(l: DocLookup) -> LookupView {
    match l {
        DocLookup::ById(id) => LookupView::ById(id@),
        DocLookup::ByHpath { notebook, hpath } => LookupView::ByHpath(notebook@, hpath@),
    }
}

/// The refusal of arguments naming both lookup modes.
pub open spec fn both_modes_message() -> Seq<char> {
    "provide either `id` or `notebook` with `hpath`, not both"@
}

/// The refusal of arguments naming no lookup mode.
pub open spec fn no_mode_message() -> Seq<char> {
    "provide either `id` or `notebook` with `hpath`"@
}

/// The lookup a call names: `id`, or `notebook` with `hpath`, never both.
/// Without `hpath`, a notebook alone is refused unless `root_ok`, where it
/// names the notebook's root (`/`).
pub open spec fn lookup_plan(e: Seq<(String, ArgValue)>, root_ok: bool) -> Result<LookupView, FaultView> {
    match opt_text_field(e, "id"@) {
        Some(t) => if opt_text_field(e, "notebook"@) is Some || opt_text_field(e, "hpath"@) is Some {
            Err((FaultKind::InvalidParams, both_modes_message()))
        } else {
            match block_id_of(t) {
                Err(f) => Err(f),
                Ok(id) => Ok(LookupView::ById(id)),
            }
        },
        None => match opt_text_field(e, "notebook"@) {
            None => Err((FaultKind::InvalidParams, no_mode_message())),
            Some(nb_text) => match notebook_id_of(nb_text) {
                Err(f) => Err(f),
                Ok(nb) => match opt_text_field(e, "hpath"@) {
                    Some(h) => Ok(LookupView::ByHpath(nb, h)),
                    None => if root_ok {
                        Ok(LookupView::ByHpath(nb, "/"@))
                    } else {
                        Err((FaultKind::InvalidParams, "missing or invalid `hpath`"@))
                    },
                },
            },
        },
    }
}

fn lookup_arg(map: &ArgMap, root_ok: bool) -> (r: Result<DocLookup, McpFault>)
    ensures
        match lookup_plan(map.entries@, root_ok) {
            Ok(v) => r matches Ok(l) && lookup_view(l) == v,
            Err(f) => r matches Err(x) && x@ == f,
        },
{
    let id = optional_string(map, "id");
    let nb = optional_string(map, "notebook");
    let hpath = optional_string(map, "hpath");
    match id {
        Some(t) => {
            if nb.is_some() || hpath.is_some() {
                return Err(McpFault {
                    kind: FaultKind::InvalidParams,
                    message: owned("provide either `id` or `notebook` with `hpath`, not both"),
                });
            }
            match block_arg(t.as_str()) {
                Ok(id) => Ok(DocLookup::ById(id)),
                Err(f) => Err(f),
            }
        },
        None => match nb {
            None => Err(McpFault {
                kind: FaultKind::InvalidParams,
                message: owned("provide either `id` or `notebook` with `hpath`"),
            }),
            Some(nb_text) => {
                let notebook = match notebook_arg(nb_text.as_str()) {
                    Ok(n) => n,
                    Err(f) => return Err(f),
                };
                match hpath {
                    Some(h) => Ok(DocLookup::ByHpath { notebook, hpath: h }),
                    None => if root_ok {
                        Ok(DocLookup::ByHpath { notebook, hpath: owned("/") })
                    } else {
                        Err(McpFault { kind: FaultKind::InvalidParams, message: owned("missing or invalid `hpath`") })
                    },
                }
            },
        },
    }
}

/// A document lookup asked for by a resolve call.
#[derive(Debug)]
pub struct DocResolve {
    pub lookup: DocLookup,
}

/// The lookup a resolve call asks for: `id`, or `notebook` with `hpath`;
/// an `hpath` that is blank (and not `/`) is refused.
pub open spec fn doc_resolve_plan(args: ArgValue) -> Result<LookupView, FaultView> {
    match fields_of(args) {
        Err(f) => Err(f),
        Ok(e) => match lookup_plan(e, false) {
            Err(f) => Err(f),
            Ok(l) => match l {
                LookupView::ByHpath(_, h) => if h != "/"@ && blank(h) {
                    Err((FaultKind::InvalidParams, "`hpath` must not be empty"@))
                } else {
                    Ok(l)
                },
                LookupView::ById(_) => Ok(l),
            },
        },
    }
}

/// Works out the lookup a resolve call asks for; see [`doc_resolve_plan`].
pub fn doc_resolve_request(args: ArgValue) -> (r: Result<DocResolve, McpFault>)
    ensures
        match doc_resolve_plan(args) {
            Ok(v) => r matches Ok(m) && lookup_view(m.lookup) == v,
            Err(f) => r matches Err(x) && x@ == f,
        },
{
    let map = match ensure_object(args) {
        Ok(m) => m,
        Err(f) => return Err(f),
    };
    let lookup = match lookup_arg(&map, false) {
        Ok(l) => l,
        Err(f) => return Err(f),
    };
    let checked = match &lookup {
        DocLookup::ByHpath { hpath, .. } => check_resolve_hpath(hpath.as_str()),
        DocLookup::ById(_) => Ok(()),
    };
    match checked {
        Ok(()) => Ok(DocResolve { lookup }),
        Err(f) => Err(f),
    }
}

/// A subtree listing: what to list, how deep, and in which format.
#[derive(Debug)]
pub struct DocTreeRequest {
    pub lookup: DocLookup,
    pub depth: Depth,
    pub format: String,
}

/// The refusal of a depth that is neither a positive count nor `all`.
pub open spec fn depth_message() -> Seq<char> {
    "`depth` must be a positive integer or \"all\""@
}

/// The depth a call asks for: 1 when absent; a positive integer up to
/// `u32::MAX` as that many levels; the string `all` as no limit.
pub open spec fn depth_plan(e: Seq<(String, ArgValue)>) -> Result<Depth, FaultView> {
    match field(e, "depth"@) {
        None => Ok(Depth::N(1)),
        Some(ArgValue::Number(Some(n))) => if 1 <= n && n <= u32::MAX {
            Ok(Depth::N(n as u32))
        } else {
            Err((FaultKind::InvalidParams, depth_message()))
        },
        Some(ArgValue::Str(t)) => if t@ == "all"@ {
            Ok(Depth::All)
        } else {
            Err((FaultKind::InvalidParams, depth_message()))
        },
        Some(_) => Err((FaultKind::InvalidParams, depth_message())),
    }
}

/// The listing a call asks for: the lookup (a notebook alone names its
/// root), then the depth, and the format (`agent-md` unless a string is
/// given).
pub open spec fn doc_tree_plan(args: ArgValue) -> Result<(LookupView, Depth, Seq<char>), FaultView> {
    match fields_of(args) {
        Err(f) => Err(f),
        Ok(e) => match lookup_plan(e, true) {
            Err(f) => Err(f),
            Ok(l) => match depth_plan(e) {
                Err(f) => Err(f),
                Ok(d) => Ok((
                    l,
                    d,
                    match opt_text_field(e, "format"@) {
                        Some(t) => t,
                        None => "agent-md"@,
                    },
                )),
            },
        },
    }
}

/// Works out the listing a call asks for; see [`doc_tree_plan`].
pub fn doc_tree_request(args: ArgValue) -> (r: Result<DocTreeRequest, McpFault>)
    ensures
        match doc_tree_plan(args) {
            Ok((l, d, f)) => r matches Ok(m) && lookup_view(m.lookup) == l && m.depth == d && m.format@ == f,
            Err(f) => r matches Err(x) && x@ == f,
        },
{
    let map = match ensure_object(args) {
        Ok(m) => m,
        Err(f) => return Err(f),
    };
    let lookup = match lookup_arg(&map, true) {
        Ok(l) => l,
        Err(f) => return Err(f),
    };
    let bad_depth = McpFault {
        kind: FaultKind::InvalidParams,
        message: owned("`depth` must be a positive integer or \"all\""),
    };
    let depth = match get(&map, "depth") {
        None => Depth::N(1),
        Some(ArgValue::Number(Some(n))) => if 1 <= *n && *n <= 0xFFFF_FFFFu64 {
            Depth::N(*n as u32)
        } else {
            return Err(bad_depth);
        },
        Some(ArgValue::Str(t)) => if str_eq(t.as_str(), "all") {
            Depth::All
        } else {
            return Err(bad_depth);
        },
        Some(_) => return Err(bad_depth),
    };
    let format = match optional_string(&map, "format") {
        Some(s) => s,
        None => owned("agent-md"),
    };
    Ok(DocTreeRequest { lookup, depth, format })
}

/// Where a filetree operation finds its document: a notebook and a storage
/// (`.sy`) path given outright, or a lookup resolved to one document.
#[derive(Debug)]
pub enum DocTarget {
    Stored { notebook: NotebookId, path: String },
    Lookup(DocLookup),
}

/// Model of a [`DocTarget`].
pub enum TargetView {
    Stored(Seq<char>, Seq<char>),
    Lookup(LookupView),
}

/// Model of a [`DocTarget`].
pub open spec fn target_view(t: DocTarget) -> TargetView {
    match t {
        DocTarget::Stored { notebook, path } => TargetView::Stored(notebook@, path@),
        DocTarget::Lookup(l) => TargetView::Lookup(lookup_view(l)),
    }
}

/// The document a call names: with `path`, that storage path in the
/// required `notebook`; without it, `id` or `notebook` with `hpath`.
pub open spec fn target_plan(e: Seq<(String, ArgValue)>) -> Result<TargetView, FaultView> {
    match opt_text_field(e, "path"@) {
        Some(p) => match text_field(e, "notebook"@) {
            Err(f) => Err(f),
            Ok(nb_text) => match notebook_id_of(nb_text) {
                Err(f) => Err(f),
                Ok(nb) => Ok(TargetView::Stored(nb, p)),
            },
        },
        None => match lookup_plan(e, false) {
            Err(f) => Err(f),
            Ok(l) => Ok(TargetView::Lookup(l)),
        },
    }
}

fn target_arg(map: &ArgMap) -> (r: Result<DocTarget, McpFault>)
    ensures
        match target_plan(map.entries@) {
            Ok(v) => r matches Ok(t) && target_view(t) == v,
            Err(f) => r matches Err(x) && x@ == f,
        },
{
    match optional_string(map, "path") {
        Some(path) => {
            let nb_text = match required_string(map, "notebook") {
                Ok(s) => s,
                Err(f) => return Err(f),
            };
            match notebook_arg(nb_text.as_str()) {
                Ok(notebook) => Ok(DocTarget::Stored { notebook, path }),
                Err(f) => Err(f),
            }
        },
        None => match lookup_arg(map, false) {
            Ok(l) => Ok(DocTarget::Lookup(l)),
            Err(f) => Err(f),
        },
    }
}

/// A document rename: the document and its new title.
#[derive(Debug)]
pub struct DocRename {
    pub target: DocTarget,
    pub title: String,
}

/// The rename a call asks for: the document (see [`target_plan`]), then
/// the required `title`.
pub open spec fn doc_rename_plan(args: ArgValue) -> Result<(TargetView, Seq<char>), FaultView> {
    match fields_of(args) {
        Err(f) => Err(f),
        Ok(e) => match target_plan(e) {
            Err(f) => Err(f),
            Ok(t) => match text_field(e, "title"@) {
                Err(f) => Err(f),
                Ok(title) => Ok((t, title)),
            },
        },
    }
}

/// Works out the rename a call asks for; see [`doc_rename_plan`].
pub fn doc_rename_request(args: ArgValue) -> (r: Result<DocRename, McpFault>)
    ensures
        match doc_rename_plan(args) {
            Ok(v) => r matches Ok(m) && (target_view(m.target), m.title@) == v,
            Err(f) => r matches Err(x) && x@ == f,
        },
{
    let map = match ensure_object(args) {
        Ok(m) => m,
        Err(f) => return Err(f),
    };
    let target = match target_arg(&map) {
        Ok(t) => t,
        Err(f) => return Err(f),
    };
    match required_string(&map, "title") {
        Ok(title) => Ok(DocRename { target, title }),
        Err(f) => Err(f),
    }
}

/// The document a removal names; see [`target_plan`].
pub open spec fn doc_remove_plan(args: ArgValue) -> Result<TargetView, FaultView> {
    match fields_of(args) {
        Err(f) => Err(f),
        Ok(e) => target_plan(e),
    }
}

/// Works out the document a removal names; see [`doc_remove_plan`].
pub fn doc_remove_request(args: ArgValue) -> (r: Result<DocTarget, McpFault>)
    ensures
        match doc_remove_plan(args) {
            Ok(v) => r matches Ok(t) && target_view(t) == v,
            Err(f) => r matches Err(x) && x@ == f,
        },
{
    let map = match ensure_object(args) {
        Ok(m) => m,
        Err(f) => return Err(f),
    };
    target_arg(&map)
}

/// A document move: the storage paths moved, or a lookup naming the one
/// document moved, and where they go.
#[derive(Debug)]
pub struct DocMove {
    pub from_paths: Vec<String>,
    pub source: Option<DocLookup>,
    pub to_notebook: NotebookId,
    pub to_path: String,
}

/// Model of a document move: source paths, source lookup, target notebook,
/// target path.
pub type DocMoveView = (Seq<Seq<char>>, Option<LookupView>, Seq<char>, Seq<char>);

impl View for DocMove {
    type V = DocMoveView;

    open spec fn view(&self) -> DocMoveView {
        (
            self.from_paths@.map_values(|p: String| p@),
            match self.source {
                Some(l) => Some(lookup_view(l)),
                None => None,
            },
            self.to_notebook@,
            self.to_path@,
        )
    }
}

/// What a move takes from: `from_paths` (at least one) when given; else,
/// when `id` or `notebook` is given, the document they look up; else the
/// refusal of the missing `from_paths`.
pub open spec fn move_source_plan(e: Seq<(String, ArgValue)>) -> Result<(Seq<Seq<char>>, Option<LookupView>), FaultView> {
    if field(e, "from_paths"@) is None && (opt_text_field(e, "id"@) is Some || opt_text_field(e, "notebook"@) is Some) {
        match lookup_plan(e, false) {
            Err(f) => Err(f),
            Ok(l) => Ok((Seq::empty(), Some(l))),
        }
    } else {
        match strings_field(e, "from_paths"@) {
            Err(f) => Err(f),
            Ok(from) => if from.len() == 0 {
                Err((FaultKind::InvalidParams, "`from_paths` must contain at least one source path"@))
            } else {
                Ok((from, None))
            },
        }
    }
}

/// The move a call asks for: its sources (see [`move_source_plan`]), then
/// `to_notebook` and `to_path`.
pub open spec fn doc_move_plan(args: ArgValue) -> Result<DocMoveView, FaultView> {
    match fields_of(args) {
        Err(f) => Err(f),
        Ok(e) => match move_source_plan(e) {
            Err(f) => Err(f),
            Ok((from, source)) => match text_field(e, "to_notebook"@) {
                Err(f) => Err(f),
                Ok(nb_text) => match notebook_id_of(nb_text) {
                    Err(f) => Err(f),
                    Ok(nb) => match text_field(e, "to_path"@) {
                        Err(f) => Err(f),
                        Ok(to_path) => Ok((from, source, nb, to_path)),
                    },
                },
            },
        },
    }
}

/// Works out the move a call asks for; see [`doc_move_plan`].
pub fn doc_move_request(args: ArgValue) -> (r: Result<DocMove, McpFault>)
    ensures
        match doc_move_plan(args) {
            Ok(v) => r matches Ok(m) && m@ == v,
            Err(f) => r matches Err(x) && x@ == f,
        },
{
    let map = match ensure_object(args) {
        Ok(m) => m,
        Err(f) => return Err(f),
    };
    let by_lookup = get(&map, "from_paths").is_none()
        && (optional_string(&map, "id").is_some() || optional_string(&map, "notebook").is_some());
    let (from_paths, source) = if by_lookup {
        match lookup_arg(&map, false) {
            Ok(l) => (Vec::new(), Some(l)),
            Err(f) => return Err(f),
        }
    } else {
        let from_paths = match string_array(&map, "from_paths") {
            Ok(v) => v,
            Err(f) => return Err(f),
        };
        match check_move_sources(&from_paths) {
            Ok(()) => {},
            Err(f) => return Err(f),
        }
        let ghost from = strings_field(map.entries@, "from_paths"@)->Ok_0;
        assert(from_paths@.map_values(|p: String| p@) =~= from);
        (from_paths, None)
    };
    let nb_text = match required_string(&map, "to_notebook") {
        Ok(s) => s,
        Err(f) => return Err(f),
    };
    let to_notebook = match notebook_arg(nb_text.as_str()) {
        Ok(n) => n,
        Err(f) => return Err(f),
    };
    let to_path = match required_string(&map, "to_path") {
        Ok(s) => s,
        Err(f) => return Err(f),
    };
    assert(from_paths@.map_values(|p: String| p@) =~= move_source_plan(map.entries@)->Ok_0.0);
    Ok(DocMove { from_paths, source, to_notebook, to_path })
}

/// A link-graph request: centre block, depth and direction.
#[derive(Debug)]
pub struct GraphRequest {
    pub center: BlockId,
    pub depth: usize,
    pub direction: Direction,
}

impl View for GraphRequest {
    type V = (Seq<char>, usize, Direction);

    open spec fn view(&self) -> (Seq<char>, usize, Direction) {
        (self.center@, self.depth, self.direction)
    }
}

/// The request a call makes: depth 1 unless given, capped at
/// [`MAX_GRAPH_DEPTH`]; direction `outgoing` or `incoming` when so named,
/// both otherwise.
pub open spec fn graph_plan(args: ArgValue) -> Result<(Seq<char>, usize, Direction), FaultView> {
    match fields_of(args) {
        Err(f) => Err(f),
        Ok(e) => match text_field(e, "center"@) {
            Err(f) => Err(f),
            Ok(c_text) => match block_id_of(c_text) {
                Err(f) => Err(f),
                Ok(center) => Ok((
                    center,
                    match u64_field(e, "depth"@) {
                        Some(d) => if d > MAX_GRAPH_DEPTH { MAX_GRAPH_DEPTH as usize } else { d as usize },
                        None => 1usize,
                    },
                    match opt_text_field(e, "direction"@) {
                        Some(t) => if t == "outgoing"@ {
                            Direction::Outgoing
                        } else if t == "incoming"@ {
                            Direction::Incoming
                        } else {
                            Direction::Both
                        },
                        None => Direction::Both,
                    },
                )),
            },
        },
    }
}

/// Works out the graph request a call makes; see [`graph_plan`].
pub fn graph_request(args: ArgValue) -> (r: Result<GraphRequest, McpFault>)
    ensures
        match graph_plan(args) {
            Ok(v) => r matches Ok(m) && m@ == v,
            Err(f) => r matches Err(x) && x@ == f,
        },
{
    let map = match ensure_object(args) {
        Ok(m) => m,
        Err(f) => return Err(f),
    };
    let c_text = match required_string(&map, "center") {
        Ok(s) => s,
        Err(f) => return Err(f),
    };
    let center = match block_arg(c_text.as_str()) {
        Ok(id) => id,
        Err(f) => return Err(f),
    };
    let depth = graph_depth_arg(optional_u64(&map, "depth"));
    let named = optional_string(&map, "direction");
    let direction = match &named {
        Some(s) => direction_arg(Some(s.as_str())),
        None => direction_arg(None),
    };
    Ok(GraphRequest { center, depth, direction })
}

/// A tag search: the tag and how many hits at most.
#[derive(Debug)]
pub struct TagSearch {
    pub tag: String,
    pub limit: usize,
}

impl View for TagSearch {
    type V = (Seq<char>, usize);

    open spec fn view(&self) -> (Seq<char>, usize) {
        (self.tag@, self.limit)
    }
}

/// The search a call asks for: limit 50 unless given, capped at
/// [`MAX_SEARCH_LIMIT`]; a zero limit is refused.
pub open spec fn tag_search_plan(args: ArgValue) -> Result<(Seq<char>, usize), FaultView> {
    match fields_of(args) {
        Err(f) => Err(f),
        Ok(e) => match text_field(e, "tag"@) {
            Err(f) => Err(f),
            Ok(tag) => match u64_field(e, "limit"@) {
                Some(l) => if l == 0 {
                    Err((FaultKind::InvalidParams, "`limit` must be greater than 0"@))
                } else if l > MAX_SEARCH_LIMIT {
                    Ok((tag, MAX_SEARCH_LIMIT as usize))
                } else {
                    Ok((tag, l as usize))
                },
                None => Ok((tag, 50usize)),
            },
        },
    }
}

/// Works out the search a call asks for; see [`tag_search_plan`].
pub fn tag_search_request(args: ArgValue) -> (r: Result<TagSearch, McpFault>)
    ensures
        match tag_search_plan(args) {
            Ok(v) => r matches Ok(m) && m@ == v,
            Err(f) => r matches Err(x) && x@ == f,
        },
{
    let map = match ensure_object(args) {
        Ok(m) => m,
        Err(f) => return Err(f),
    };
    let tag = match required_string(&map, "tag") {
        Ok(s) => s,
        Err(f) => return Err(f),
    };
    match search_limit_arg(optional_u64(&map, "limit")) {
        Ok(limit) => Ok(TagSearch { tag, limit }),
        Err(f) => Err(f),
    }
}

/// An attribute update: the block and its new attributes as key/value text.
#[derive(Debug)]
pub struct SetAttrs {
    pub id: BlockId,
    pub attrs: Vec<(String, String)>,
}

/// The block and the attribute object a set-attributes call names:
/// `id` is read and parsed, then `attrs` must be an object.
pub open spec fn set_attrs_target(args: ArgValue) -> Result<(Seq<char>, ArgMap), FaultView> {
    match fields_of(args) {
        Err(f) => Err(f),
        Ok(e) => match text_field(e, "id"@) {
            Err(f) => Err(f),
            Ok(id_text) => match block_id_of(id_text) {
                Err(f) => Err(f),
                Ok(id) => match object_at(e, "attrs"@) {
                    Err(f) => Err(f),
                    Ok(m) => Ok((id, m)),
                },
            },
        },
    }
}

/// Works out the attribute update a call asks for: the block and object of
/// [`set_attrs_target`], every value a string; the first value that is not
/// is named in the refusal.
pub fn set_attrs_request(args: ArgValue) -> (r: Result<SetAttrs, McpFault>)
    ensures
        match set_attrs_target(args) {
            Err(f) => r matches Err(x) && x@ == f,
            Ok((id, m)) => {
                &&& r is Ok <==> forall|i: int| 0 <= i < m.entries@.len() ==> #[trigger] m.entries@[i].1 is Str
                &&& r matches Ok(s) ==> {
                    &&& s.id@ == id
                    &&& s.attrs@.len() == m.entries@.len()
                    &&& forall|i: int| 0 <= i < s.attrs@.len() ==> (#[trigger] s.attrs@[i]).0@ == m.entries@[i].0@
                        && s.attrs@[i].1@ == string_at(m.entries@[i].1)
                }
                &&& r matches Err(x) ==> exists|i: int| {
                    &&& 0 <= i < m.entries@.len()
                    &&& !(#[trigger] m.entries@[i].1 is Str)
                    &&& forall|j: int| 0 <= j < i ==> #[trigger] m.entries@[j].1 is Str
                    &&& x@ == (FaultKind::InvalidParams, attr_value_message(m.entries@[i].0@))
                }
            },
        },
{
    let map = match ensure_object(args) {
        Ok(m) => m,
        Err(f) => return Err(f),
    };
    let id_text = match required_string(&map, "id") {
        Ok(s) => s,
        Err(f) => return Err(f),
    };
    let id = match block_arg(id_text.as_str()) {
        Ok(id) => id,
        Err(f) => return Err(f),
    };
    let obj = match object_field(&map, "attrs") {
        Ok(o) => o,
        Err(f) => return Err(f),
    };
    match attr_strings(obj) {
        Ok(attrs) => Ok(SetAttrs { id, attrs }),
        Err(f) => Err(f),
    }
}

/// A text search: the substring and how many hits at most.
#[derive(Debug)]
pub struct TextSearch {
    pub query: String,
    pub limit: usize,
}

impl View for TextSearch {
    type V = (Seq<char>, usize);

    open spec fn view(&self) -> (Seq<char>, usize) {
        (self.query@, self.limit)
    }
}

/// The search a call asks for: limit 50 unless given, capped at
/// [`MAX_SEARCH_LIMIT`].
pub open spec fn text_search_plan(args: ArgValue) -> Result<(Seq<char>, usize), FaultView> {
    match fields_of(args) {
        Err(f) => Err(f),
        Ok(e) => match text_field(e, "query"@) {
            Err(f) => Err(f),
            Ok(query) => Ok((
                query,
                match u64_field(e, "limit"@) {
                    Some(l) => if l > MAX_SEARCH_LIMIT { MAX_SEARCH_LIMIT as usize } else { l as usize },
                    None => 50usize,
                },
            )),
        },
    }
}

/// Works out the search a call asks for; see [`text_search_plan`].
pub fn text_search_request(args: ArgValue) -> (r: Result<TextSearch, McpFault>)
    ensures
        match text_search_plan(args) {
            Ok(v) => r matches Ok(m) && m@ == v,
            Err(f) => r matches Err(x) && x@ == f,
        },
{
    let map = match ensure_object(args) {
        Ok(m) => m,
        Err(f) => return Err(f),
    };
    let query = match required_string(&map, "query") {
        Ok(s) => s,
        Err(f) => return Err(f),
    };
    let limit: usize = match optional_u64(&map, "limit") {
        Some(l) => if l > MAX_SEARCH_LIMIT { MAX_SEARCH_LIMIT as usize } else { l as usize },
        None => 50,
    };
    Ok(TextSearch { query, limit })
}

/// The substring search over block markdown for an already escaped query.
pub open spec fn text_search_query(escaped: Seq<char>, limit: nat) -> Seq<char> {
    "SELECT id, root_id, markdown FROM blocks WHERE markdown LIKE '%"@ + escaped
        + "%' ESCAPE '\\' LIMIT "@ + dec_digits(limit)
}

/// Builds the substring search: single quotes are doubled; the LIKE
/// wildcards `%`, `_` and `\` are left as they are.
pub fn search_text_sql(query: &str, limit: usize) -> (r: String)
    ensures
        r@ == text_search_query(escape_quotes(query@), limit as nat),
{
    let escaped = escape_tag(query);
    let mut s = owned("SELECT id, root_id, markdown FROM blocks WHERE markdown LIKE '%");
    push_str(&mut s, escaped.as_str());
    push_str(&mut s, "%' ESCAPE '\\' LIMIT ");
    let l = dec_u64(limit as u64);
    push_str(&mut s, l.as_str());
    s
}

} // verus!
