//! Structural children of container blocks.

use vstd::prelude::*;

use crate::block::{is_container_type, BlockNode, BlockNodeView};
use crate::ids::BlockId;
use crate::section::views;

verus! {

/// Ids of the blocks among `bs[0..n]` whose parent is `p`, in order.
pub open spec fn children_upto(bs: Seq<BlockNodeView>, p: Seq<char>, n: int) -> Seq<Seq<char>>
    decreases n,
{
    if n <= 0 || n > bs.len() {
        Seq::empty()
    } else if bs[n - 1].parent_id == Some(p) {
        children_upto(bs, p, n - 1).push(bs[n - 1].id)
    } else {
        children_upto(bs, p, n - 1)
    }
}

/// Ids of all blocks whose parent is `p`, in order.
pub open spec fn children_in(bs: Seq<BlockNodeView>, p: Seq<char>) -> Seq<Seq<char>> {
    children_upto(bs, p, bs.len() as int)
}

/// `true` when block `i` is a container and no earlier container has its id.
pub open spec fn first_container_with_id(bs: Seq<BlockNodeView>, i: int) -> bool {
    &&& is_container_type(bs[i].block_type)
    &&& forall|k: int| 0 <= k < i ==> !(is_container_type(bs[k].block_type) && bs[k].id == bs[i].id)
}

/// `a` equals `b` in every field but `structural_children`.
pub open spec fn same_but_structure(a: BlockNodeView, b: BlockNodeView) -> bool {
    a == BlockNodeView { structural_children: a.structural_children, ..b }
}

/// The structural children a block receives: a container that is the first
/// container with its id gets its children in order (none when no block
/// names it as parent); every other block keeps its list.
pub open spec fn structure_after(bs: Seq<BlockNodeView>, i: int) -> Seq<Seq<char>> {
    if first_container_with_id(bs, i) {
        children_in(bs, bs[i].id)
    } else {
        bs[i].structural_children
    }
}

/// Every block with its structural children filled in.
pub open spec fn with_structure(bs: Seq<BlockNodeView>) -> Seq<BlockNodeView> {
    Seq::new(bs.len(), |k: int| BlockNodeView { structural_children: structure_after(bs, k), ..bs[k] })
}

fn parent_is(b: &BlockNode, p: &BlockId) -> (r: bool)
    ensures
        r == (b@.parent_id == Some(p@)),
{
    match &b.parent_id {
        Some(q) => q.same(p),
        None => false,
    }
}

fn is_container(t: crate::block::BlockType) -> (r: bool)
    ensures
        r == is_container_type(t),
{
    match t {
        crate::block::BlockType::Document
        | crate::block::BlockType::SuperBlock
        | crate::block::BlockType::List
        | crate::block::BlockType::ListItem
        | crate::block::BlockType::Blockquote => true,
        _ => false,
    }
}

fn collect_children(blocks: &Vec<BlockNode>, p: &BlockId) -> (r: Vec<BlockId>)
    ensures
        crate::block::id_texts(r@) == children_in(views(blocks@), p@),
{
    let ghost bs = views(blocks@);
    let mut out: Vec<BlockId> = Vec::new();
    let n = blocks.len();
    let mut j: usize = 0;
    while j < n
        invariant
            n == blocks@.len(),
            bs == views(blocks@),
            j <= n,
            crate::block::id_texts(out@) == children_upto(bs, p@, j as int),
        decreases n - j,
    {
        proof { assert(bs[j as int] == blocks@[j as int]@); }
        if parent_is(&blocks[j], p) {
            out.push(blocks[j].id.duplicate());
            proof {
                assert(crate::block::id_texts(out@) =~= children_upto(bs, p@, j as int).push(bs[j as int].id));
            }
        }
        j = j + 1;
    }
    out
}

fn earlier_container_with(blocks: &Vec<BlockNode>, i: usize) -> (r: bool)
    requires
        i < blocks@.len(),
    ensures
        r == exists|k: int| 0 <= k < i && is_container_type(views(blocks@)[k].block_type)
            && views(blocks@)[k].id == views(blocks@)[i as int].id,
{
    let ghost bs = views(blocks@);
    let mut k: usize = 0;
    while k < i
        invariant
            i < blocks@.len(),
            bs == views(blocks@),
            k <= i,
            forall|m: int| 0 <= m < k ==> !(is_container_type(bs[m].block_type) && bs[m].id == bs[i as int].id),
        decreases i - k,
    {
        proof {
            assert(bs[k as int] == blocks@[k as int]@);
            assert(bs[i as int] == blocks@[i as int]@);
        }
        if is_container(blocks[k].block_type) && blocks[k].id.same(&blocks[i].id) {
            return true;
        }
        k = k + 1;
    }
    false
}

/// Fills `structural_children` of container blocks (`d/s/l/i/b`) with the
/// ids of the blocks whose parent they are, in list order, so a container
/// without children gets an empty list; if several containers share an id,
/// only the first receives the children. Other fields are left as they were.
pub fn populate_structural_children(blocks: &mut Vec<BlockNode>)
    ensures
        final(blocks)@.len() == old(blocks)@.len(),
        forall|i: int| 0 <= i < old(blocks)@.len() ==> same_but_structure(
            #[trigger] final(blocks)@[i]@,
            old(blocks)@[i]@,
        ),
        forall|i: int| 0 <= i < old(blocks)@.len() ==>
            (#[trigger] final(blocks)@[i]@).structural_children == structure_after(views(old(blocks)@), i),
        views(final(blocks)@) == with_structure(views(old(blocks)@)),
{
    let ghost orig = views(blocks@);
    let n = blocks.len();
    let mut i: usize = 0;
    while i < n
        invariant
            n == blocks@.len(),
            n == orig.len(),
            i <= n,
            forall|k: int| 0 <= k < n ==> same_but_structure(#[trigger] blocks@[k]@, orig[k]),
            forall|k: int| i <= k < n ==> (#[trigger] blocks@[k]@).structural_children == orig[k].structural_children,
            forall|k: int| 0 <= k < i ==> (#[trigger] blocks@[k]@).structural_children == structure_after(orig, k),
        decreases n - i,
    {
        proof {
            assert forall|k: int| 0 <= k < n implies same_but_structure(#[trigger] views(blocks@)[k], orig[k]) by {
                assert(views(blocks@)[k] == blocks@[k]@);
            }
            lemma_children_ignore_structure(views(blocks@), orig, blocks@[i as int]@.id, n as int);
        }
        if is_container(blocks[i].block_type) && !earlier_container_with(blocks, i) {
            let id = blocks[i].id.duplicate();
            let kids = collect_children(blocks, &id);
            blocks[i].structural_children = kids;
        }
        i = i + 1;
    }
    proof {
        assert forall|k: int| 0 <= k < n implies #[trigger] views(blocks@)[k] == with_structure(orig)[k] by {
            assert(views(blocks@)[k] == blocks@[k]@);
        }
        assert(views(blocks@) =~= with_structure(orig));
    }
}

/// Filling in structural children twice gives what filling them in once
/// gives: the lists depend only on the other fields, which the first pass
/// leaves as they were.
pub proof fn lemma_structure_idempotent(bs: Seq<BlockNodeView>)
    ensures
        with_structure(with_structure(bs)) == with_structure(bs),
{
    let s1 = with_structure(bs);
    assert forall|k: int| 0 <= k < s1.len() implies same_but_structure(#[trigger] s1[k], bs[k]) by {}
    lemma_children_ignore_structure(s1, bs, Seq::empty(), 0);
    assert forall|k: int| 0 <= k < s1.len() implies #[trigger] with_structure(s1)[k] == s1[k] by {
        lemma_children_ignore_structure(s1, bs, s1[k].id, s1.len() as int);
        assert(s1[k].id == bs[k].id);
    }
    assert(with_structure(s1) =~= s1);
}

proof fn lemma_children_ignore_structure(a: Seq<BlockNodeView>, b: Seq<BlockNodeView>, p: Seq<char>, n: int)
    requires
        a.len() == b.len(),
        forall|k: int| 0 <= k < a.len() ==> same_but_structure(#[trigger] a[k], b[k]),
    ensures
        children_upto(a, p, n) == children_upto(b, p, n),
        forall|i: int| 0 <= i < a.len() ==> (first_container_with_id(a, i) <==> first_container_with_id(b, i)),
    decreases n,
{
    if 0 < n <= a.len() {
        assert(same_but_structure(a[n - 1], b[n - 1]));
        lemma_children_ignore_structure(a, b, p, n - 1);
    }
    assert forall|i: int| 0 <= i < a.len() implies (first_container_with_id(a, i) <==> first_container_with_id(b, i)) by {
        assert(same_but_structure(a[i], b[i]));
        assert forall|k: int| 0 <= k < i implies (is_container_type(a[k].block_type) && a[k].id == a[i].id)
            == (is_container_type(b[k].block_type) && b[k].id == b[i].id) by {
            assert(same_but_structure(a[k], b[k]));
        }
    }
}

} // verus!
