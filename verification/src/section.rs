//! Heading sections: for a heading at level L, its section is the run of
//! later siblings (same parent) up to the next sibling heading whose level
//! is at most L.

use vstd::prelude::*;

use crate::block::{opt_id, BlockNode, BlockNodeView, BlockType};
use crate::ids::BlockId;

verus! {

/// Heading level from the kernel subtype `h1`..`h6`; anything else counts
/// as the deepest level, 6.
pub open spec fn heading_level(subtype: Option<Seq<char>>) -> u8 {
    match subtype {
        Some(s) => if s.len() == 2 && s[0] == 'h' && '1' <= s[1] && s[1] <= '6' {
            ((s[1] as u32) - ('0' as u32)) as u8
        } else {
            6
        },
        None => 6,
    }
}

/// The level of `h1` .. `h6` is its digit; every other subtype (and none)
/// reads as the deepest level, 6.
pub proof fn lemma_heading_level_digit(s: Option<Seq<char>>)
    ensures
        forall|d: char| '1' <= d <= '6' ==> heading_level(Some(#[trigger] seq!['h', d])) as int == d as int - '0' as int,
        !(s matches Some(t) && t.len() == 2 && t[0] == 'h' && '1' <= t[1] <= '6') ==> heading_level(s) == 6,
{
    assert forall|d: char| '1' <= d <= '6' implies heading_level(Some(#[trigger] seq!['h', d])) as int == d as int - '0' as int by {
        let t = seq!['h', d];
        assert(t.len() == 2 && t[0] == 'h' && t[1] == d);
        let v = (d as u32) - ('0' as u32);
        assert(1 <= v <= 6);
        assert((v as u8) as int == v);
    }
}

/// `true` when `b` is a heading.
pub open spec fn is_heading(b: BlockNodeView) -> bool {
    b.block_type == BlockType::Heading
}

/// The ids in the section of the heading at `h`, scanning from index `j`.
pub open spec fn section_from(bs: Seq<BlockNodeView>, h: int, j: int) -> Seq<Seq<char>>
    decreases bs.len() - j,
{
    if j < 0 || j >= bs.len() {
        Seq::empty()
    } else if bs[j].parent_id != bs[h].parent_id {
        section_from(bs, h, j + 1)
    } else if is_heading(bs[j]) && heading_level(bs[j].subtype) <= heading_level(bs[h].subtype) {
        Seq::empty()
    } else {
        seq![bs[j].id] + section_from(bs, h, j + 1)
    }
}

/// The section of the heading at index `h`.
pub open spec fn section_of(bs: Seq<BlockNodeView>, h: int) -> Seq<Seq<char>> {
    section_from(bs, h, h + 1)
}

/// The block at `m` ends the section of the heading at `h`: a heading
/// under the same parent, at the same level or shallower.
pub open spec fn ends_section(bs: Seq<BlockNodeView>, h: int, m: int) -> bool {
    bs[m].parent_id == bs[h].parent_id && is_heading(bs[m]) && heading_level(bs[m].subtype) <= heading_level(bs[h].subtype)
}

/// No block from `j` through `k` ends the section of the heading at `h`.
pub open spec fn open_through(bs: Seq<BlockNodeView>, h: int, j: int, k: int) -> bool {
    forall|m: int| j <= m <= k ==> !#[trigger] ends_section(bs, h, m)
}

proof fn lemma_section_from_members(bs: Seq<BlockNodeView>, h: int, j: int)
    requires
        0 <= h < bs.len(),
        0 <= j,
    ensures
        forall|k: int| j <= k < bs.len() && bs[k].parent_id == bs[h].parent_id && open_through(bs, h, j, k)
            ==> section_from(bs, h, j).contains(#[trigger] bs[k].id),
        forall|x: Seq<char>| #[trigger] section_from(bs, h, j).contains(x)
            ==> exists|k: int| j <= k < bs.len() && bs[k].parent_id == bs[h].parent_id && bs[k].id == x,
    decreases bs.len() - j,
{
    if j < bs.len() {
        lemma_section_from_members(bs, h, j + 1);
        let rest = section_from(bs, h, j + 1);
        assert forall|k: int| j <= k < bs.len() && bs[k].parent_id == bs[h].parent_id && open_through(bs, h, j, k)
            implies section_from(bs, h, j).contains(#[trigger] bs[k].id) by {
            assert(!ends_section(bs, h, j));
            if k > j {
                assert(open_through(bs, h, j + 1, k)) by {
                    assert forall|m: int| j + 1 <= m <= k implies !#[trigger] ends_section(bs, h, m) by {
                        assert(j <= m <= k);
                    }
                }
                assert(rest.contains(bs[k].id));
                if bs[j].parent_id == bs[h].parent_id {
                    let t = seq![bs[j].id] + rest;
                    let i = choose|i: int| 0 <= i < rest.len() && rest[i] == bs[k].id;
                    assert(t[i + 1] == bs[k].id);
                }
            } else {
                assert(section_from(bs, h, j)[0] == bs[j].id);
            }
        }
        assert forall|x: Seq<char>| #[trigger] section_from(bs, h, j).contains(x)
            implies exists|k: int| j <= k < bs.len() && bs[k].parent_id == bs[h].parent_id && bs[k].id == x by {
            if bs[j].parent_id == bs[h].parent_id && !ends_section(bs, h, j) {
                let t = seq![bs[j].id] + rest;
                let i = choose|i: int| 0 <= i < t.len() && t[i] == x;
                if i == 0 {
                    assert(bs[j].id == x);
                } else {
                    assert(rest[i - 1] == x);
                    assert(rest.contains(x));
                }
            } else {
                assert(rest.contains(x));
            }
        }
    }
}

/// A heading's section holds exactly blocks under the heading's parent
/// that come after it, and it holds every such block up to the first later
/// heading under that parent at the same level or shallower: with levels
/// the digits of `h1` .. `h6` (see [`lemma_heading_level_digit`]), deeper
/// subheadings and their text stay inside the section.
pub proof fn lemma_section_members(bs: Seq<BlockNodeView>, h: int)
    requires
        0 <= h < bs.len(),
    ensures
        forall|k: int| h < k < bs.len() && bs[k].parent_id == bs[h].parent_id && open_through(bs, h, h + 1, k)
            ==> section_of(bs, h).contains(#[trigger] bs[k].id),
        forall|x: Seq<char>| #[trigger] section_of(bs, h).contains(x)
            ==> exists|k: int| h < k < bs.len() && bs[k].parent_id == bs[h].parent_id && bs[k].id == x,
{
    lemma_section_from_members(bs, h, h + 1);
}

/// Views of a sequence of nodes.
pub open spec fn views(bs: Seq<BlockNode>) -> Seq<BlockNodeView> {
    bs.map_values(|b: BlockNode| b@)
}

/// `a` equals `b` in every field but `section_children`.
pub open spec fn same_but_sections(a: BlockNodeView, b: BlockNodeView) -> bool {
    a == BlockNodeView { section_children: a.section_children, ..b }
}

/// Heading level parser.
pub fn parse_heading_level(subtype: Option<&str>) -> (r: u8)
    ensures
        r == heading_level(match subtype { Some(s) => Some(s@), None => None }),
        1 <= r <= 6,
{
    match subtype {
        Some(s) => {
            let cs = crate::text::chars_of(s);
            if cs.len() == 2 && cs[0] == 'h' && '1' <= cs[1] && cs[1] <= '6' {
                let d = cs[1] as u32 - '0' as u32;
                d as u8
            } else {
                6
            }
        },
        None => 6,
    }
}

fn level_of(b: &BlockNode) -> (r: u8)
    ensures
        r == heading_level(b@.subtype),
{
    match &b.subtype {
        Some(s) => parse_heading_level(Some(s.as_str())),
        None => parse_heading_level(None),
    }
}

fn same_parent(a: &Option<BlockId>, b: &Option<BlockId>) -> (r: bool)
    ensures
        r == (opt_id(*a) == opt_id(*b)),
{
    match (a, b) {
        (Some(x), Some(y)) => x.same(y),
        (None, None) => true,
        _ => false,
    }
}

/// The section of the heading at index `h`.
fn compute_section(blocks: &Vec<BlockNode>, h: usize) -> (r: Vec<BlockId>)
    requires
        h < blocks@.len(),
    ensures
        crate::block::id_texts(r@) == section_of(views(blocks@), h as int),
{
    let ghost bs = views(blocks@);
    let level = level_of(&blocks[h]);
    let mut out: Vec<BlockId> = Vec::new();
    let n = blocks.len();
    let mut j: usize = h + 1;
    while j < n
        invariant
            n == blocks@.len(),
            bs == views(blocks@),
            h < j <= n,
            level == heading_level(bs[h as int].subtype),
            section_of(bs, h as int) == crate::block::id_texts(out@) + section_from(bs, h as int, j as int),
        decreases n - j,
    {
        proof {
            assert(bs[j as int] == blocks@[j as int]@);
            assert(bs[h as int] == blocks@[h as int]@);
        }
        if !same_parent(&blocks[j].parent_id, &blocks[h].parent_id) {
            j = j + 1;
        } else if blocks[j].block_type == BlockType::Heading && level_of(&blocks[j]) <= level {
            proof {
                assert(section_from(bs, h as int, j as int) == Seq::<Seq<char>>::empty());
                assert(crate::block::id_texts(out@) + Seq::<Seq<char>>::empty() =~= crate::block::id_texts(out@));
            }
            return out;
        } else {
            let ghost before = out@;
            out.push(blocks[j].id.duplicate());
            proof {
                assert(crate::block::id_texts(out@) =~= crate::block::id_texts(before) + seq![bs[j as int].id]);
                assert(section_from(bs, h as int, j as int) == seq![bs[j as int].id] + section_from(bs, h as int, j + 1));
                assert(crate::block::id_texts(before) + (seq![bs[j as int].id] + section_from(bs, h as int, j + 1))
                    =~= crate::block::id_texts(out@) + section_from(bs, h as int, j + 1));
            }
            j = j + 1;
        }
    }
    proof {
        assert(section_from(bs, h as int, j as int) == Seq::<Seq<char>>::empty());
        assert(crate::block::id_texts(out@) + Seq::<Seq<char>>::empty() =~= crate::block::id_texts(out@));
    }
    out
}

/// Sets `section_children` of every heading to its section; all other
/// fields, and the section lists of non-headings, are left as they were.
/// Blocks are expected in document (DFS) order.
pub fn populate_section_children(blocks: &mut Vec<BlockNode>)
    ensures
        final(blocks)@.len() == old(blocks)@.len(),
        forall|i: int| 0 <= i < old(blocks)@.len() ==> same_but_sections(
            #[trigger] final(blocks)@[i]@,
            old(blocks)@[i]@,
        ),
        forall|i: int| 0 <= i < old(blocks)@.len() && is_heading(old(blocks)@[i]@) ==>
            (#[trigger] final(blocks)@[i]@).section_children == section_of(views(old(blocks)@), i),
        forall|i: int| 0 <= i < old(blocks)@.len() && !is_heading(old(blocks)@[i]@) ==>
            (#[trigger] final(blocks)@[i]@).section_children == old(blocks)@[i]@.section_children,
{
    let ghost orig = views(blocks@);
    let n = blocks.len();
    let mut i: usize = 0;
    while i < n
        invariant
            n == blocks@.len(),
            n == orig.len(),
            i <= n,
            forall|k: int| 0 <= k < n ==> same_but_sections(#[trigger] blocks@[k]@, orig[k]),
            forall|k: int| 0 <= k < n ==> (#[trigger] blocks@[k]@).section_children == orig[k].section_children
                || k < i,
            forall|k: int| 0 <= k < i && is_heading(orig[k]) ==>
                (#[trigger] blocks@[k]@).section_children == section_of(orig, k),
            forall|k: int| 0 <= k < i && !is_heading(orig[k]) ==>
                (#[trigger] blocks@[k]@).section_children == orig[k].section_children,
        decreases n - i,
    {
        if blocks[i].block_type == BlockType::Heading {
            let sec = compute_section(blocks, i);
            proof {
                assert forall|k: int| 0 <= k < n implies same_but_sections(#[trigger] views(blocks@)[k], orig[k]) by {
                    assert(views(blocks@)[k] == blocks@[k]@);
                }
                lemma_section_ignores_sections(views(blocks@), orig, i as int, i as int + 1);
            }
            blocks[i].section_children = sec;
        }
        i = i + 1;
    }
}

/// A section depends on every field but the section lists themselves.
proof fn lemma_section_ignores_sections(a: Seq<BlockNodeView>, b: Seq<BlockNodeView>, h: int, j: int)
    requires
        a.len() == b.len(),
        0 <= h < a.len(),
        forall|k: int| 0 <= k < a.len() ==> same_but_sections(#[trigger] a[k], b[k]),
    ensures
        section_from(a, h, j) == section_from(b, h, j),
    decreases a.len() - j,
{
    if 0 <= j < a.len() {
        assert(same_but_sections(a[j], b[j]));
        assert(same_but_sections(a[h], b[h]));
        lemma_section_ignores_sections(a, b, h, j + 1);
    }
}

} // verus!
