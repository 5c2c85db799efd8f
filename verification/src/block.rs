//! Block kinds, editing roles and the annotated block node.

use std::collections::BTreeMap;

use vstd::prelude::*;

use crate::ids::{BlockId, NotebookId};
use crate::text::chars_of;

verus! {

/// SiYuan's first-class block kinds, as found in the `type` column of the
/// `blocks` table.
#[derive(Debug, Clone, Copy, PartialEq, Eq, Structural, Hash)]
pub enum BlockType {
    Document,
    Heading,
    Paragraph,
    List,
    ListItem,
    SuperBlock,
    Blockquote,
    Code,
    Math,
    Table,
    ThematicBreak,
    QueryEmbed,
    AttributeView,
    Html,
    IFrame,
    Widget,
    Audio,
    Video,
    Unknown,
}

/// The kernel's spelling of each block type.
pub open spec fn kernel_name(t: BlockType) -> Seq<char> {
    match t {
        BlockType::Document => seq!['d'],
        BlockType::Heading => seq!['h'],
        BlockType::Paragraph => seq!['p'],
        BlockType::List => seq!['l'],
        BlockType::ListItem => seq!['i'],
        BlockType::SuperBlock => seq!['s'],
        BlockType::Blockquote => seq!['b'],
        BlockType::Code => seq!['c'],
        BlockType::Math => seq!['m'],
        BlockType::Table => seq!['t'],
        BlockType::ThematicBreak => seq!['t', 'b'],
        BlockType::QueryEmbed => seq!['q', 'u', 'e', 'r', 'y', '_', 'e', 'm', 'b', 'e', 'd'],
        BlockType::AttributeView => seq!['a', 'v'],
        BlockType::Html => seq!['h', 't', 'm', 'l'],
        BlockType::IFrame => seq!['i', 'f', 'r', 'a', 'm', 'e'],
        BlockType::Widget => seq!['w', 'i', 'd', 'g', 'e', 't'],
        BlockType::Audio => seq!['a', 'u', 'd', 'i', 'o'],
        BlockType::Video => seq!['v', 'i', 'd', 'e', 'o'],
        BlockType::Unknown => seq!['u', 'n', 'k', 'n', 'o', 'w', 'n'],
    }
}

/// The block type named by a kernel `type` string; unrecognised strings
/// (including `"unknown"`) map to `Unknown`.
pub open spec fn kernel_type_of(raw: Seq<char>) -> BlockType {
    if raw == kernel_name(BlockType::Document) { BlockType::Document }
    else if raw == kernel_name(BlockType::Heading) { BlockType::Heading }
    else if raw == kernel_name(BlockType::Paragraph) { BlockType::Paragraph }
    else if raw == kernel_name(BlockType::List) { BlockType::List }
    else if raw == kernel_name(BlockType::ListItem) { BlockType::ListItem }
    else if raw == kernel_name(BlockType::SuperBlock) { BlockType::SuperBlock }
    else if raw == kernel_name(BlockType::Blockquote) { BlockType::Blockquote }
    else if raw == kernel_name(BlockType::Code) { BlockType::Code }
    else if raw == kernel_name(BlockType::Math) { BlockType::Math }
    else if raw == kernel_name(BlockType::Table) { BlockType::Table }
    else if raw == kernel_name(BlockType::ThematicBreak) { BlockType::ThematicBreak }
    else if raw == kernel_name(BlockType::QueryEmbed) { BlockType::QueryEmbed }
    else if raw == kernel_name(BlockType::AttributeView) { BlockType::AttributeView }
    else if raw == kernel_name(BlockType::Html) { BlockType::Html }
    else if raw == kernel_name(BlockType::IFrame) { BlockType::IFrame }
    else if raw == kernel_name(BlockType::Widget) { BlockType::Widget }
    else if raw == kernel_name(BlockType::Audio) { BlockType::Audio }
    else if raw == kernel_name(BlockType::Video) { BlockType::Video }
    else { BlockType::Unknown }
}

/// The kernel spelling of a block type, as characters.
fn name_chars(t: BlockType) -> (r: Vec<char>)
    ensures
        r@ == kernel_name(t),
{
    let v = match t {
        BlockType::Document => vec!['d'],
        BlockType::Heading => vec!['h'],
        BlockType::Paragraph => vec!['p'],
        BlockType::List => vec!['l'],
        BlockType::ListItem => vec!['i'],
        BlockType::SuperBlock => vec!['s'],
        BlockType::Blockquote => vec!['b'],
        BlockType::Code => vec!['c'],
        BlockType::Math => vec!['m'],
        BlockType::Table => vec!['t'],
        BlockType::ThematicBreak => vec!['t', 'b'],
        BlockType::QueryEmbed => vec!['q', 'u', 'e', 'r', 'y', '_', 'e', 'm', 'b', 'e', 'd'],
        BlockType::AttributeView => vec!['a', 'v'],
        BlockType::Html => vec!['h', 't', 'm', 'l'],
        BlockType::IFrame => vec!['i', 'f', 'r', 'a', 'm', 'e'],
        BlockType::Widget => vec!['w', 'i', 'd', 'g', 'e', 't'],
        BlockType::Audio => vec!['a', 'u', 'd', 'i', 'o'],
        BlockType::Video => vec!['v', 'i', 'd', 'e', 'o'],
        BlockType::Unknown => vec!['u', 'n', 'k', 'n', 'o', 'w', 'n'],
    };
    assert(v@ =~= kernel_name(t));
    v
}

impl BlockType {
    /// Parses the kernel's `type` string; anything unrecognised is `Unknown`.
    pub fn from_kernel(raw: &str) -> (r: BlockType)
        ensures
            r == kernel_type_of(raw@),
    {
        let cs = chars_of(raw);
        let c = cs.as_slice();
        if crate::text::chars_eq(c, name_chars(BlockType::Document).as_slice()) {
            BlockType::Document
        } else if crate::text::chars_eq(c, name_chars(BlockType::Heading).as_slice()) {
            BlockType::Heading
        } else if crate::text::chars_eq(c, name_chars(BlockType::Paragraph).as_slice()) {
            BlockType::Paragraph
        } else if crate::text::chars_eq(c, name_chars(BlockType::List).as_slice()) {
            BlockType::List
        } else if crate::text::chars_eq(c, name_chars(BlockType::ListItem).as_slice()) {
            BlockType::ListItem
        } else if crate::text::chars_eq(c, name_chars(BlockType::SuperBlock).as_slice()) {
            BlockType::SuperBlock
        } else if crate::text::chars_eq(c, name_chars(BlockType::Blockquote).as_slice()) {
            BlockType::Blockquote
        } else if crate::text::chars_eq(c, name_chars(BlockType::Code).as_slice()) {
            BlockType::Code
        } else if crate::text::chars_eq(c, name_chars(BlockType::Math).as_slice()) {
            BlockType::Math
        } else if crate::text::chars_eq(c, name_chars(BlockType::Table).as_slice()) {
            BlockType::Table
        } else if crate::text::chars_eq(c, name_chars(BlockType::ThematicBreak).as_slice()) {
            BlockType::ThematicBreak
        } else if crate::text::chars_eq(c, name_chars(BlockType::QueryEmbed).as_slice()) {
            BlockType::QueryEmbed
        } else if crate::text::chars_eq(c, name_chars(BlockType::AttributeView).as_slice()) {
            BlockType::AttributeView
        } else if crate::text::chars_eq(c, name_chars(BlockType::Html).as_slice()) {
            BlockType::Html
        } else if crate::text::chars_eq(c, name_chars(BlockType::IFrame).as_slice()) {
            BlockType::IFrame
        } else if crate::text::chars_eq(c, name_chars(BlockType::Widget).as_slice()) {
            BlockType::Widget
        } else if crate::text::chars_eq(c, name_chars(BlockType::Audio).as_slice()) {
            BlockType::Audio
        } else if crate::text::chars_eq(c, name_chars(BlockType::Video).as_slice()) {
            BlockType::Video
        } else {
            BlockType::Unknown
        }
    }

    /// The kernel's spelling of this block type (`"unknown"` for `Unknown`).
    pub fn as_kernel(&self) -> (r: &'static str)
        ensures
            r@ == kernel_name(*self),
    {
        match self {
            BlockType::Document => { proof { reveal_strlit("d"); } "d" },
            BlockType::Heading => { proof { reveal_strlit("h"); } "h" },
            BlockType::Paragraph => { proof { reveal_strlit("p"); } "p" },
            BlockType::List => { proof { reveal_strlit("l"); } "l" },
            BlockType::ListItem => { proof { reveal_strlit("i"); } "i" },
            BlockType::SuperBlock => { proof { reveal_strlit("s"); } "s" },
            BlockType::Blockquote => { proof { reveal_strlit("b"); } "b" },
            BlockType::Code => { proof { reveal_strlit("c"); } "c" },
            BlockType::Math => { proof { reveal_strlit("m"); } "m" },
            BlockType::Table => { proof { reveal_strlit("t"); } "t" },
            BlockType::ThematicBreak => { proof { reveal_strlit("tb"); } "tb" },
            BlockType::QueryEmbed => { proof { reveal_strlit("query_embed"); } "query_embed" },
            BlockType::AttributeView => { proof { reveal_strlit("av"); } "av" },
            BlockType::Html => { proof { reveal_strlit("html"); } "html" },
            BlockType::IFrame => { proof { reveal_strlit("iframe"); } "iframe" },
            BlockType::Widget => { proof { reveal_strlit("widget"); } "widget" },
            BlockType::Audio => { proof { reveal_strlit("audio"); } "audio" },
            BlockType::Video => { proof { reveal_strlit("video"); } "video" },
            BlockType::Unknown => { proof { reveal_strlit("unknown"); } "unknown" },
        }
    }
}

/// Reading back the kernel spelling of any block type gives the same type
/// (for `Unknown` because `"unknown"` is not a recognised kernel type).
pub proof fn lemma_kernel_name_round_trip(t: BlockType)
    ensures
        kernel_type_of(kernel_name(t)) == t,
{
    reveal_first_chars();
}

proof fn reveal_first_chars()
    ensures
        kernel_name(BlockType::Document)[0] == 'd',
        kernel_name(BlockType::Heading)[0] == 'h',
        kernel_name(BlockType::Paragraph)[0] == 'p',
        kernel_name(BlockType::List)[0] == 'l',
        kernel_name(BlockType::ListItem)[0] == 'i',
        kernel_name(BlockType::SuperBlock)[0] == 's',
        kernel_name(BlockType::Blockquote)[0] == 'b',
        kernel_name(BlockType::Code)[0] == 'c',
        kernel_name(BlockType::Math)[0] == 'm',
        kernel_name(BlockType::Table)[0] == 't',
        kernel_name(BlockType::ThematicBreak)[0] == 't',
        kernel_name(BlockType::QueryEmbed)[0] == 'q',
        kernel_name(BlockType::AttributeView)[0] == 'a',
        kernel_name(BlockType::Html)[0] == 'h',
        kernel_name(BlockType::IFrame)[0] == 'i',
        kernel_name(BlockType::Widget)[0] == 'w',
        kernel_name(BlockType::Audio)[0] == 'a',
        kernel_name(BlockType::Video)[0] == 'v',
        kernel_name(BlockType::Unknown)[0] == 'u',
        kernel_name(BlockType::Document).len() == 1,
        kernel_name(BlockType::Heading).len() == 1,
        kernel_name(BlockType::Paragraph).len() == 1,
        kernel_name(BlockType::List).len() == 1,
        kernel_name(BlockType::ListItem).len() == 1,
        kernel_name(BlockType::SuperBlock).len() == 1,
        kernel_name(BlockType::Blockquote).len() == 1,
        kernel_name(BlockType::Code).len() == 1,
        kernel_name(BlockType::Math).len() == 1,
        kernel_name(BlockType::Table).len() == 1,
        kernel_name(BlockType::ThematicBreak).len() == 2,
        kernel_name(BlockType::QueryEmbed).len() == 11,
        kernel_name(BlockType::AttributeView).len() == 2,
        kernel_name(BlockType::Html).len() == 4,
        kernel_name(BlockType::IFrame).len() == 6,
        kernel_name(BlockType::Widget).len() == 6,
        kernel_name(BlockType::Audio).len() == 5,
        kernel_name(BlockType::Video).len() == 5,
        kernel_name(BlockType::Unknown).len() == 7,
{
}

/// Distinct block types have distinct kernel spellings.
pub proof fn lemma_kernel_name_injective(a: BlockType, b: BlockType)
    ensures
        kernel_name(a) == kernel_name(b) ==> a == b,
{
    if kernel_name(a) == kernel_name(b) {
        lemma_kernel_name_round_trip(a);
        lemma_kernel_name_round_trip(b);
    }
}

/// How the harness treats a block when editing or inserting.
#[derive(Debug, Clone, Copy, PartialEq, Eq, Structural)]
pub enum BlockRole {
    /// Accepts `append_child` / `prepend_child`.
    Container,
    /// A heading: accepts `append_section` / `prepend_section`.
    HeadingSectionOwner,
    /// No child operations.
    Leaf,
}

/// `true` for the container block types `d/s/l/i/b`.
pub open spec fn is_container_type(t: BlockType) -> bool {
    t == BlockType::Document || t == BlockType::SuperBlock || t == BlockType::List
        || t == BlockType::ListItem || t == BlockType::Blockquote
}

/// The role of each block type.
pub open spec fn role_of(t: BlockType) -> BlockRole {
    if is_container_type(t) {
        BlockRole::Container
    } else if t == BlockType::Heading {
        BlockRole::HeadingSectionOwner
    } else {
        BlockRole::Leaf
    }
}

impl BlockRole {
    /// The role of a block type: containers `d/s/l/i/b`, headings own
    /// sections, everything else is a leaf.
    pub fn for_block_type(t: BlockType) -> (r: BlockRole)
        ensures
            r == role_of(t),
    {
        match t {
            BlockType::Document
            | BlockType::SuperBlock
            | BlockType::List
            | BlockType::ListItem
            | BlockType::Blockquote => BlockRole::Container,
            BlockType::Heading => BlockRole::HeadingSectionOwner,
            _ => BlockRole::Leaf,
        }
    }
}

/// One block in a document tree, with semantic annotations beyond what the
/// raw `blocks` table provides.
#[derive(Debug)]
pub struct BlockNode {
    pub id: BlockId,
    pub root_id: BlockId,
    pub parent_id: Option<BlockId>,
    pub notebook_id: NotebookId,
    pub block_type: BlockType,
    pub subtype: Option<String>,
    pub role: BlockRole,
    pub markdown: String,
    pub kramdown: Option<String>,
    pub ial: Option<String>,
    pub attrs: BTreeMap<String, String>,
    pub hash: Option<String>,
    pub created: Option<String>,
    pub updated: Option<String>,
    pub sort: Option<i64>,
    /// Children whose parent is this block (data-structure children).
    pub structural_children: Vec<BlockId>,
    /// Heading section content; empty unless the block is a heading.
    pub section_children: Vec<BlockId>,
}

/// Mathematical model of a [`BlockNode`].
pub struct BlockNodeView {
    pub id: Seq<char>,
    pub root_id: Seq<char>,
    pub parent_id: Option<Seq<char>>,
    pub notebook_id: Seq<char>,
    pub block_type: BlockType,
    pub subtype: Option<Seq<char>>,
    pub role: BlockRole,
    pub markdown: Seq<char>,
    pub kramdown: Option<Seq<char>>,
    pub ial: Option<Seq<char>>,
    pub attrs: Map<String, String>,
    pub hash: Option<Seq<char>>,
    pub created: Option<Seq<char>>,
    pub updated: Option<Seq<char>>,
    pub sort: Option<i64>,
    pub structural_children: Seq<Seq<char>>,
    pub section_children: Seq<Seq<char>>,
}

/// View of an optional string.
pub open spec fn opt_str(o: Option<String>) -> Option<Seq<char>> {
    match o {
        Some(s) => Some(s@),
        None => None,
    }
}

/// View of an optional id.
pub open spec fn opt_id(o: Option<BlockId>) -> Option<Seq<char>> {
    match o {
        Some(i) => Some(i@),
        None => None,
    }
}

/// Texts of a sequence of ids.
pub open spec fn id_texts(ids: Seq<BlockId>) -> Seq<Seq<char>> {
    ids.map_values(|i: BlockId| i@)
}

impl View for BlockNode {
    type V = BlockNodeView;

    open spec fn view(&self) -> BlockNodeView {
        BlockNodeView {
            id: self.id@,
            root_id: self.root_id@,
            parent_id: opt_id(self.parent_id),
            notebook_id: self.notebook_id@,
            block_type: self.block_type,
            subtype: opt_str(self.subtype),
            role: self.role,
            markdown: self.markdown@,
            kramdown: opt_str(self.kramdown),
            ial: opt_str(self.ial),
            attrs: self.attrs@,
            hash: opt_str(self.hash),
            created: opt_str(self.created),
            updated: opt_str(self.updated),
            sort: self.sort,
            structural_children: id_texts(self.structural_children@),
            section_children: id_texts(self.section_children@),
        }
    }
}

/// A copy of an optional string.
pub fn clone_opt_str(o: &Option<String>) -> (r: Option<String>)
    ensures
        opt_str(r) == opt_str(*o),
{
    match o {
        Some(s) => Some(s.clone()),
        None => None,
    }
}

/// A copy of an optional id.
pub fn clone_opt_id(o: &Option<BlockId>) -> (r: Option<BlockId>)
    ensures
        opt_id(r) == opt_id(*o),
{
    match o {
        Some(s) => Some(s.duplicate()),
        None => None,
    }
}

/// A copy of a list of ids.
pub fn clone_ids(v: &Vec<BlockId>) -> (r: Vec<BlockId>)
    ensures
        id_texts(r@) == id_texts(v@),
{
    let mut out: Vec<BlockId> = Vec::new();
    let mut i: usize = 0;
    while i < v.len()
        invariant
            i <= v@.len(),
            out@.len() == i,
            id_texts(out@) == id_texts(v@.subrange(0, i as int)),
        decreases v@.len() - i,
    {
        let ghost before = out@;
        out.push(v[i].duplicate());
        proof {
            assert forall|k: int| 0 <= k < out@.len() implies #[trigger] out@[k]@ == v@.subrange(0, i + 1)[k]@ by {
                if k < i {
                    assert(out@[k] == before[k]);
                    assert(id_texts(before)[k] == id_texts(v@.subrange(0, i as int))[k]);
                }
            }
            assert(id_texts(out@) =~= id_texts(v@.subrange(0, i + 1)));
        }
        i = i + 1;
    }
    assert(v@.subrange(0, v@.len() as int) =~= v@);
    out
}

impl BlockNode {
    /// A copy of this node.
    pub fn duplicate(&self) -> (r: BlockNode)
        ensures
            r@ == self@,
    {
        BlockNode {
            id: self.id.duplicate(),
            root_id: self.root_id.duplicate(),
            parent_id: clone_opt_id(&self.parent_id),
            notebook_id: self.notebook_id.duplicate(),
            block_type: self.block_type,
            subtype: clone_opt_str(&self.subtype),
            role: self.role,
            markdown: self.markdown.clone(),
            kramdown: clone_opt_str(&self.kramdown),
            ial: clone_opt_str(&self.ial),
            attrs: self.attrs.clone(),
            hash: clone_opt_str(&self.hash),
            created: clone_opt_str(&self.created),
            updated: clone_opt_str(&self.updated),
            sort: self.sort,
            structural_children: clone_ids(&self.structural_children),
            section_children: clone_ids(&self.section_children),
        }
    }
}

impl Clone for BlockNode {
    fn clone(&self) -> (r: Self)
        ensures
            r@ == self@,
    {
        self.duplicate()
    }
}

} // verus!
