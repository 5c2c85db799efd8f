//! Where to drop blocks for insertion and moves.

use vstd::prelude::*;

use crate::ids::BlockId;
use crate::text::chars_of;

verus! {

/// A placement relative to an anchor block. The variants are distinct so
/// the harness, not the agent, picks the kernel's `previousID` / `nextID` /
/// `parentID` combination.
#[derive(Debug)]
pub enum Position {
    AfterBlock { block_id: BlockId },
    BeforeBlock { block_id: BlockId },
    AppendChild { container_id: BlockId },
    PrependChild { container_id: BlockId },
    AppendSection { heading_id: BlockId },
    PrependSection { heading_id: BlockId },
    AppendDoc { doc_id: BlockId },
    PrependDoc { doc_id: BlockId },
}

/// The placement kind without its anchor.
#[derive(Debug, Clone, Copy, PartialEq, Eq, Structural)]
pub enum PositionKind {
    AfterBlock,
    BeforeBlock,
    AppendChild,
    PrependChild,
    AppendSection,
    PrependSection,
    AppendDoc,
    PrependDoc,
}

/// The kind of a position.
pub open spec fn kind_of(p: Position) -> PositionKind {
    match p {
        Position::AfterBlock { .. } => PositionKind::AfterBlock,
        Position::BeforeBlock { .. } => PositionKind::BeforeBlock,
        Position::AppendChild { .. } => PositionKind::AppendChild,
        Position::PrependChild { .. } => PositionKind::PrependChild,
        Position::AppendSection { .. } => PositionKind::AppendSection,
        Position::PrependSection { .. } => PositionKind::PrependSection,
        Position::AppendDoc { .. } => PositionKind::AppendDoc,
        Position::PrependDoc { .. } => PositionKind::PrependDoc,
    }
}

/// The anchor id of a position, whatever its kind.
pub open spec fn anchor_of(p: Position) -> BlockId {
    match p {
        Position::AfterBlock { block_id } => block_id,
        Position::BeforeBlock { block_id } => block_id,
        Position::AppendChild { container_id } => container_id,
        Position::PrependChild { container_id } => container_id,
        Position::AppendSection { heading_id } => heading_id,
        Position::PrependSection { heading_id } => heading_id,
        Position::AppendDoc { doc_id } => doc_id,
        Position::PrependDoc { doc_id } => doc_id,
    }
}

/// The position of the given kind anchored on `id`.
pub open spec fn position_of(kind: PositionKind, id: BlockId) -> Position {
    match kind {
        PositionKind::AfterBlock => Position::AfterBlock { block_id: id },
        PositionKind::BeforeBlock => Position::BeforeBlock { block_id: id },
        PositionKind::AppendChild => Position::AppendChild { container_id: id },
        PositionKind::PrependChild => Position::PrependChild { container_id: id },
        PositionKind::AppendSection => Position::AppendSection { heading_id: id },
        PositionKind::PrependSection => Position::PrependSection { heading_id: id },
        PositionKind::AppendDoc => Position::AppendDoc { doc_id: id },
        PositionKind::PrependDoc => Position::PrependDoc { doc_id: id },
    }
}

impl From<(PositionKind, BlockId)> for Position {
    fn from(pair: (PositionKind, BlockId)) -> (r: Position) {
        let (kind, id) = pair;
        match kind {
            PositionKind::AfterBlock => Position::AfterBlock { block_id: id },
            PositionKind::BeforeBlock => Position::BeforeBlock { block_id: id },
            PositionKind::AppendChild => Position::AppendChild { container_id: id },
            PositionKind::PrependChild => Position::PrependChild { container_id: id },
            PositionKind::AppendSection => Position::AppendSection { heading_id: id },
            PositionKind::PrependSection => Position::PrependSection { heading_id: id },
            PositionKind::AppendDoc => Position::AppendDoc { doc_id: id },
            PositionKind::PrependDoc => Position::PrependDoc { doc_id: id },
        }
    }
}

impl vstd::std_specs::convert::FromSpecImpl<(PositionKind, BlockId)> for Position {
    open spec fn obeys_from_spec() -> bool {
        true
    }

    open spec fn from_spec(pair: (PositionKind, BlockId)) -> Position {
        position_of(pair.0, pair.1)
    }
}

impl Position {
    /// Pairs a kind with an anchor id.
    pub fn from_kind(kind: PositionKind, id: BlockId) -> (r: Position)
        ensures
            r == position_of(kind, id),
    {
        Position::from((kind, id))
    }

    /// The id this position is anchored on, regardless of kind.
    pub fn anchor_id(&self) -> (r: &BlockId)
        ensures
            *r == anchor_of(*self),
    {
        match self {
            Position::AfterBlock { block_id } => block_id,
            Position::BeforeBlock { block_id } => block_id,
            Position::AppendChild { container_id } => container_id,
            Position::PrependChild { container_id } => container_id,
            Position::AppendSection { heading_id } => heading_id,
            Position::PrependSection { heading_id } => heading_id,
            Position::AppendDoc { doc_id } => doc_id,
            Position::PrependDoc { doc_id } => doc_id,
        }
    }

    /// The kind of this position.
    pub fn kind(&self) -> (r: PositionKind)
        ensures
            r == kind_of(*self),
    {
        match self {
            Position::AfterBlock { .. } => PositionKind::AfterBlock,
            Position::BeforeBlock { .. } => PositionKind::BeforeBlock,
            Position::AppendChild { .. } => PositionKind::AppendChild,
            Position::PrependChild { .. } => PositionKind::PrependChild,
            Position::AppendSection { .. } => PositionKind::AppendSection,
            Position::PrependSection { .. } => PositionKind::PrependSection,
            Position::AppendDoc { .. } => PositionKind::AppendDoc,
            Position::PrependDoc { .. } => PositionKind::PrependDoc,
        }
    }
}

/// Pairing a kind with an id and reading back the kind and the anchor gives
/// the kind and the id.
pub proof fn lemma_position_round_trip(kind: PositionKind, id: BlockId)
    ensures
        kind_of(position_of(kind, id)) == kind,
        anchor_of(position_of(kind, id)) == id,
{
}

/// The wire name (snake case) of each kind.
pub open spec fn kind_name(k: PositionKind) -> Seq<char> {
    match k {
        PositionKind::AfterBlock => seq!['a', 'f', 't', 'e', 'r', '_', 'b', 'l', 'o', 'c', 'k'],
        PositionKind::BeforeBlock => seq!['b', 'e', 'f', 'o', 'r', 'e', '_', 'b', 'l', 'o', 'c', 'k'],
        PositionKind::AppendChild => seq!['a', 'p', 'p', 'e', 'n', 'd', '_', 'c', 'h', 'i', 'l', 'd'],
        PositionKind::PrependChild => seq!['p', 'r', 'e', 'p', 'e', 'n', 'd', '_', 'c', 'h', 'i', 'l', 'd'],
        PositionKind::AppendSection => seq!['a', 'p', 'p', 'e', 'n', 'd', '_', 's', 'e', 'c', 't', 'i', 'o', 'n'],
        PositionKind::PrependSection => seq!['p', 'r', 'e', 'p', 'e', 'n', 'd', '_', 's', 'e', 'c', 't', 'i', 'o', 'n'],
        PositionKind::AppendDoc => seq!['a', 'p', 'p', 'e', 'n', 'd', '_', 'd', 'o', 'c'],
        PositionKind::PrependDoc => seq!['p', 'r', 'e', 'p', 'e', 'n', 'd', '_', 'd', 'o', 'c'],
    }
}

/// The kind whose wire name is `s`, if any.
pub open spec fn kind_named(s: Seq<char>) -> Option<PositionKind> {
    if s == kind_name(PositionKind::AfterBlock) { Some(PositionKind::AfterBlock) }
    else if s == kind_name(PositionKind::BeforeBlock) { Some(PositionKind::BeforeBlock) }
    else if s == kind_name(PositionKind::AppendChild) { Some(PositionKind::AppendChild) }
    else if s == kind_name(PositionKind::PrependChild) { Some(PositionKind::PrependChild) }
    else if s == kind_name(PositionKind::AppendSection) { Some(PositionKind::AppendSection) }
    else if s == kind_name(PositionKind::PrependSection) { Some(PositionKind::PrependSection) }
    else if s == kind_name(PositionKind::AppendDoc) { Some(PositionKind::AppendDoc) }
    else if s == kind_name(PositionKind::PrependDoc) { Some(PositionKind::PrependDoc) }
    else { None }
}

fn kind_name_chars(k: PositionKind) -> (r: Vec<char>)
    ensures
        r@ == kind_name(k),
{
    let v = match k {
        PositionKind::AfterBlock => vec!['a', 'f', 't', 'e', 'r', '_', 'b', 'l', 'o', 'c', 'k'],
        PositionKind::BeforeBlock => vec!['b', 'e', 'f', 'o', 'r', 'e', '_', 'b', 'l', 'o', 'c', 'k'],
        PositionKind::AppendChild => vec!['a', 'p', 'p', 'e', 'n', 'd', '_', 'c', 'h', 'i', 'l', 'd'],
        PositionKind::PrependChild => vec!['p', 'r', 'e', 'p', 'e', 'n', 'd', '_', 'c', 'h', 'i', 'l', 'd'],
        PositionKind::AppendSection => vec!['a', 'p', 'p', 'e', 'n', 'd', '_', 's', 'e', 'c', 't', 'i', 'o', 'n'],
        PositionKind::PrependSection => vec!['p', 'r', 'e', 'p', 'e', 'n', 'd', '_', 's', 'e', 'c', 't', 'i', 'o', 'n'],
        PositionKind::AppendDoc => vec!['a', 'p', 'p', 'e', 'n', 'd', '_', 'd', 'o', 'c'],
        PositionKind::PrependDoc => vec!['p', 'r', 'e', 'p', 'e', 'n', 'd', '_', 'd', 'o', 'c'],
    };
    assert(v@ =~= kind_name(k));
    v
}

/// The refusal of a text that names no kind, worded as the JSON
/// deserializer words an unknown variant.
pub open spec fn unknown_kind_message(s: Seq<char>) -> Seq<char> {
    "invalid position kind: unknown variant `"@ + s + "`, expected one of "@ + KIND_LIST@
}

/// The wire names of the kinds in declaration order, as a refusal lists them.
pub const KIND_LIST: &'static str =
    "`after_block`, `before_block`, `append_child`, `prepend_child`, `append_section`, `prepend_section`, `append_doc`, `prepend_doc`";

/// Parses a kind from its snake-case wire name (`after_block`, ...). Any
/// other text, including the Rust variant spelling, is refused with the
/// deserializer's unknown-variant message.
pub fn parse_position_kind(s: &str) -> (r: Result<PositionKind, String>)
    ensures
        r is Ok <==> kind_named(s@) is Some,
        r matches Ok(k) ==> kind_named(s@) == Some(k),
        r matches Err(m) ==> m@ == unknown_kind_message(s@),
{
    let cs = chars_of(s);
    let c = cs.as_slice();
    if crate::text::chars_eq(c, kind_name_chars(PositionKind::AfterBlock).as_slice()) {
        Ok(PositionKind::AfterBlock)
    } else if crate::text::chars_eq(c, kind_name_chars(PositionKind::BeforeBlock).as_slice()) {
        Ok(PositionKind::BeforeBlock)
    } else if crate::text::chars_eq(c, kind_name_chars(PositionKind::AppendChild).as_slice()) {
        Ok(PositionKind::AppendChild)
    } else if crate::text::chars_eq(c, kind_name_chars(PositionKind::PrependChild).as_slice()) {
        Ok(PositionKind::PrependChild)
    } else if crate::text::chars_eq(c, kind_name_chars(PositionKind::AppendSection).as_slice()) {
        Ok(PositionKind::AppendSection)
    } else if crate::text::chars_eq(c, kind_name_chars(PositionKind::PrependSection).as_slice()) {
        Ok(PositionKind::PrependSection)
    } else if crate::text::chars_eq(c, kind_name_chars(PositionKind::AppendDoc).as_slice()) {
        Ok(PositionKind::AppendDoc)
    } else if crate::text::chars_eq(c, kind_name_chars(PositionKind::PrependDoc).as_slice()) {
        Ok(PositionKind::PrependDoc)
    } else {
        let mut m = crate::text::owned("invalid position kind: unknown variant `");
        crate::text::push_str(&mut m, s);
        crate::text::push_str(&mut m, "`, expected one of ");
        crate::text::push_str(&mut m, KIND_LIST);
        Err(m)
    }
}

/// Every kind's wire name parses back to that kind.
pub proof fn lemma_kind_name_round_trip(k: PositionKind)
    ensures
        kind_named(kind_name(k)) == Some(k),
{
    assert(kind_name(PositionKind::AfterBlock)[0] == 'a');
    assert(kind_name(PositionKind::BeforeBlock)[0] == 'b');
    assert(kind_name(PositionKind::AppendChild)[7] == 'c');
    assert(kind_name(PositionKind::PrependChild)[0] == 'p');
    assert(kind_name(PositionKind::AppendSection)[0] == 'a');
    assert(kind_name(PositionKind::PrependSection)[0] == 'p');
    assert(kind_name(PositionKind::AppendDoc)[0] == 'a');
    assert(kind_name(PositionKind::PrependDoc)[0] == 'p');
    assert(kind_name(PositionKind::AfterBlock)[1] == 'f');
    assert(kind_name(PositionKind::AppendChild)[1] == 'p');
    assert(kind_name(PositionKind::AppendDoc)[1] == 'p');
    assert(kind_name(PositionKind::AppendSection)[1] == 'p');
    assert(kind_name(PositionKind::AppendDoc)[7] == 'd');
    assert(kind_name(PositionKind::PrependDoc)[8] == 'd');
    assert(kind_name(PositionKind::PrependChild)[8] == 'c');
}

} // verus!
