//! Loading a document: the rows of its blocks are lifted into
//! [`BlockNode`]s, put into depth-first document order, annotated with
//! their structural and section children, and sliced into a page.

use vstd::prelude::*;

use crate::block::{kernel_type_of, opt_str, role_of, BlockNode, BlockNodeView, BlockRole, BlockType};
use crate::bundle::{DocBundle, DocMeta, PageInfo};
use crate::container::{populate_structural_children, structure_after, with_structure};
use crate::doc_meta::{title_from_hpath, title_of};
use crate::error::{error_message, SiyuanError};
use crate::ids::{id_error_message, is_id_text, BlockId, IdError, NotebookId};
use crate::pagination::{eff_page_size, page_count, page_end, page_start, paginate, served_page, PageRequest};
use crate::section::{is_heading, populate_section_children, section_of, views};
use crate::text::{chars_eq, chars_of, owned, push_str};

verus! {

/// The document-order children of one container, as the kernel lists them.
#[derive(Debug)]
pub struct ChildOrder {
    pub parent: String,
    pub kids: Vec<String>,
}

/// Texts of a list of strings.
pub open spec fn strs(v: Seq<String>) -> Seq<Seq<char>> {
    v.map_values(|s: String| s@)
}

/// Texts of a list of character vectors.
pub open spec fn char_seqs(v: Seq<Vec<char>>) -> Seq<Seq<char>> {
    v.map_values(|s: Vec<char>| s@)
}

/// The recorded child order of `id`; a later entry for the same parent wins.
pub open spec fn order_of(cm: Seq<ChildOrder>, id: Seq<char>) -> Option<Seq<Seq<char>>>
    decreases cm.len(),
{
    if cm.len() == 0 {
        None
    } else if cm.last().parent@ == id {
        Some(strs(cm.last().kids@))
    } else {
        order_of(cm.drop_last(), id)
    }
}

/// Index of the last node with id `id`.
pub open spec fn index_of_id(ns: Seq<BlockNodeView>, id: Seq<char>) -> Option<int>
    decreases ns.len(),
{
    if ns.len() == 0 {
        None
    } else if ns.last().id == id {
        Some(ns.len() - 1)
    } else {
        index_of_id(ns.drop_last(), id)
    }
}

/// Ids of the nodes whose parent is `id`, in list order.
pub open spec fn children_by_parent(ns: Seq<BlockNodeView>, id: Seq<char>) -> Seq<Seq<char>>
    decreases ns.len(),
{
    if ns.len() == 0 {
        Seq::empty()
    } else {
        children_by_parent(ns.drop_last(), id) + (if ns.last().parent_id == Some(id) {
            seq![ns.last().id]
        } else {
            Seq::empty()
        })
    }
}

/// The children of `id` to visit: the recorded order when there is one,
/// else the nodes naming `id` as parent, in list order.
pub open spec fn kids_for(ns: Seq<BlockNodeView>, cm: Seq<ChildOrder>, id: Seq<char>) -> Seq<Seq<char>> {
    match order_of(cm, id) {
        Some(k) => k,
        None => children_by_parent(ns, id),
    }
}

/// Number of unvisited flags.
pub open spec fn unvisited_count(v: Seq<bool>) -> nat
    decreases v.len(),
{
    if v.len() == 0 {
        0
    } else {
        unvisited_count(v.drop_last()) + (if v.last() { 0nat } else { 1nat })
    }
}

/// Marking an unvisited node visited lowers the unvisited count by one.
pub proof fn lemma_mark_visited(v: Seq<bool>, i: int)
    requires
        0 <= i < v.len(),
        !v[i],
    ensures
        unvisited_count(v.update(i, true)) + 1 == unvisited_count(v),
    decreases v.len(),
{
    let u = v.update(i, true);
    if i < v.len() - 1 {
        assert(u.drop_last() =~= v.drop_last().update(i, true));
        lemma_mark_visited(v.drop_last(), i);
    } else {
        assert(u.drop_last() =~= v.drop_last());
    }
}

/// State of the depth-first walk: ids still to visit (top last), visited
/// flags per node, and the node indices emitted so far.
pub struct DfsState {
    pub stack: Seq<Seq<char>>,
    pub visited: Seq<bool>,
    pub out: Seq<int>,
}

/// Runs the walk to the end: pop an id; skip it when no node has it or its
/// node was visited; else emit the node and push its children in reverse,
/// so that they are visited in order.
pub open spec fn dfs_run(ns: Seq<BlockNodeView>, cm: Seq<ChildOrder>, s: DfsState) -> DfsState
    decreases unvisited_count(s.visited), s.stack.len(),
{
    if s.stack.len() == 0 {
        s
    } else {
        let id = s.stack.last();
        let rest = s.stack.drop_last();
        match index_of_id(ns, id) {
            Some(i) => {
                if 0 <= i < s.visited.len() && !s.visited[i] {
                    proof {
                        lemma_mark_visited(s.visited, i);
                    }
                    dfs_run(
                        ns,
                        cm,
                        DfsState {
                            stack: rest + kids_for(ns, cm, id).reverse(),
                            visited: s.visited.update(i, true),
                            out: s.out.push(i),
                        },
                    )
                } else {
                    dfs_run(ns, cm, DfsState { stack: rest, visited: s.visited, out: s.out })
                }
            },
            None => dfs_run(ns, cm, DfsState { stack: rest, visited: s.visited, out: s.out }),
        }
    }
}

/// Indices of the unvisited flags, ascending.
pub open spec fn unvisited_indices(v: Seq<bool>) -> Seq<int>
    decreases v.len(),
{
    if v.len() == 0 {
        Seq::empty()
    } else {
        unvisited_indices(v.drop_last()) + (if v.last() { Seq::empty() } else { seq![v.len() - 1] })
    }
}

/// The walk's start: the document id on the stack, nothing visited.
pub open spec fn dfs_start(n: nat, doc: Seq<char>) -> DfsState {
    DfsState { stack: seq![doc], visited: Seq::new(n, |i: int| false), out: Seq::empty() }
}

/// The document order of the nodes, as indices: the walk from the document
/// block, then every node it did not reach, in list order.
pub open spec fn dfs_indices(ns: Seq<BlockNodeView>, cm: Seq<ChildOrder>, doc: Seq<char>) -> Seq<int> {
    let f = dfs_run(ns, cm, dfs_start(ns.len(), doc));
    f.out + unvisited_indices(f.visited)
}

/// Exec indices as integers.
pub open spec fn as_ints(v: Seq<usize>) -> Seq<int> {
    v.map_values(|x: usize| x as int)
}

fn copy_chars(v: &[char]) -> (r: Vec<char>)
    ensures
        r@ == v@,
{
    let mut out: Vec<char> = Vec::new();
    let mut i: usize = 0;
    while i < v.len()
        invariant
            i <= v@.len(),
            out@ == v@.subrange(0, i as int),
        decreases v@.len() - i,
    {
        out.push(v[i]);
        i = i + 1;
        assert(out@ =~= v@.subrange(0, i as int));
    }
    assert(v@.subrange(0, v@.len() as int) =~= v@);
    out
}

/// Index of the last node whose id is `id`.
fn find_index(ids: &Vec<Vec<char>>, id: &[char], ns: Ghost<Seq<BlockNodeView>>) -> (r: Option<usize>)
    requires
        ids@.len() == ns@.len(),
        forall|k: int| 0 <= k < ids@.len() ==> (#[trigger] ids@[k])@ == ns@[k].id,
    ensures
        match r {
            Some(i) => index_of_id(ns@, id@) == Some(i as int) && i < ids@.len(),
            None => index_of_id(ns@, id@) is None,
        },
{
    let mut i: usize = ids.len();
    assert(ns@.subrange(0, ns@.len() as int) =~= ns@);
    while i > 0
        invariant
            i <= ids@.len(),
            ids@.len() == ns@.len(),
            forall|k: int| 0 <= k < ids@.len() ==> (#[trigger] ids@[k])@ == ns@[k].id,
            index_of_id(ns@, id@) == index_of_id(ns@.subrange(0, i as int), id@),
        decreases i,
    {
        let ghost pre = ns@.subrange(0, i as int);
        if chars_eq(ids[i - 1].as_slice(), id) {
            assert(pre.last() == ns@[i - 1]);
            return Some(i - 1);
        }
        assert(pre.drop_last() =~= ns@.subrange(0, i - 1));
        i = i - 1;
    }
    None
}

/// The children of `id` to visit; see [`kids_for`].
fn kids_exec(
    ids: &Vec<Vec<char>>,
    parents: &Vec<Option<Vec<char>>>,
    cm: &Vec<ChildOrder>,
    id: &[char],
    ns: Ghost<Seq<BlockNodeView>>,
) -> (r: Vec<Vec<char>>)
    requires
        ids@.len() == ns@.len(),
        parents@.len() == ns@.len(),
        forall|k: int| 0 <= k < ids@.len() ==> (#[trigger] ids@[k])@ == ns@[k].id,
        forall|k: int| 0 <= k < parents@.len() ==> match #[trigger] parents@[k] {
            Some(p) => ns@[k].parent_id == Some(p@),
            None => ns@[k].parent_id is None,
        },
    ensures
        char_seqs(r@) == kids_for(ns@, cm@, id@),
{
    let mut k: usize = cm.len();
    assert(cm@.subrange(0, cm@.len() as int) =~= cm@);
    while k > 0
        invariant
            k <= cm@.len(),
            order_of(cm@, id@) == order_of(cm@.subrange(0, k as int), id@),
        decreases k,
    {
        let ghost pre = cm@.subrange(0, k as int);
        let pc = chars_of(cm[k - 1].parent.as_str());
        if chars_eq(pc.as_slice(), id) {
            assert(pre.last() == cm@[k - 1]);
            let kids = &cm[k - 1].kids;
            let mut out: Vec<Vec<char>> = Vec::new();
            let mut j: usize = 0;
            while j < kids.len()
                invariant
                    j <= kids@.len(),
                    char_seqs(out@) == strs(kids@.subrange(0, j as int)),
                decreases kids@.len() - j,
            {
                let ghost before = char_seqs(out@);
                out.push(chars_of(kids[j].as_str()));
                assert(char_seqs(out@) =~= before.push(kids@[j as int]@));
                assert(strs(kids@.subrange(0, j + 1)) =~= strs(kids@.subrange(0, j as int)).push(kids@[j as int]@));
                j = j + 1;
            }
            assert(kids@.subrange(0, kids@.len() as int) =~= kids@);
            return out;
        }
        assert(pre.drop_last() =~= cm@.subrange(0, k - 1));
        k = k - 1;
    }
    assert(cm@.subrange(0, 0) =~= Seq::<ChildOrder>::empty());
    let mut out: Vec<Vec<char>> = Vec::new();
    let mut i: usize = 0;
    assert(char_seqs(out@) =~= children_by_parent(ns@.subrange(0, 0), id@));
    while i < ids.len()
        invariant
            i <= ids@.len(),
            ids@.len() == ns@.len(),
            parents@.len() == ns@.len(),
            forall|k: int| 0 <= k < ids@.len() ==> (#[trigger] ids@[k])@ == ns@[k].id,
            forall|k: int| 0 <= k < parents@.len() ==> match #[trigger] parents@[k] {
                Some(p) => ns@[k].parent_id == Some(p@),
                None => ns@[k].parent_id is None,
            },
            char_seqs(out@) == children_by_parent(ns@.subrange(0, i as int), id@),
        decreases ids@.len() - i,
    {
        let ghost pre = ns@.subrange(0, i + 1);
        assert(pre.drop_last() =~= ns@.subrange(0, i as int));
        assert(pre.last() == ns@[i as int]);
        let is_kid = match &parents[i] {
            Some(p) => chars_eq(p.as_slice(), id),
            None => false,
        };
        if is_kid {
            out.push(copy_chars(ids[i].as_slice()));
            assert(char_seqs(out@) =~= children_by_parent(pre, id@));
        } else {
            assert(char_seqs(out@) =~= children_by_parent(pre, id@));
        }
        i = i + 1;
    }
    assert(ns@.subrange(0, ns@.len() as int) =~= ns@);
    out
}

/// Orders the nodes of a document depth-first from the document block:
/// each node's children come in the recorded order for it (a later entry
/// for the same parent wins), or else in list order; ids seen again are
/// skipped; nodes the walk does not reach follow in list order.
pub fn dfs_order(nodes: Vec<BlockNode>, children_map: &Vec<ChildOrder>, doc_id: &BlockId) -> (r: Vec<BlockNode>)
    ensures
        r@.len() == dfs_indices(views(nodes@), children_map@, doc_id@).len(),
        forall|k: int| 0 <= k < r@.len() ==> {
            let i = #[trigger] dfs_indices(views(nodes@), children_map@, doc_id@)[k];
            0 <= i < nodes@.len() && r@[k]@ == nodes@[i]@
        },
{
    let ghost ns = views(nodes@);
    let ghost cm = children_map@;
    let n = nodes.len();
    let mut ids: Vec<Vec<char>> = Vec::new();
    let mut parents: Vec<Option<Vec<char>>> = Vec::new();
    let mut visited: Vec<bool> = Vec::new();
    let mut i: usize = 0;
    while i < n
        invariant
            n == nodes@.len(),
            ns == views(nodes@),
            i <= n,
            ids@.len() == i,
            parents@.len() == i,
            visited@ == Seq::new(i as nat, |k: int| false),
            forall|k: int| 0 <= k < i ==> (#[trigger] ids@[k])@ == ns[k].id,
            forall|k: int| 0 <= k < i ==> match #[trigger] parents@[k] {
                Some(p) => ns[k].parent_id == Some(p@),
                None => ns[k].parent_id is None,
            },
        decreases n - i,
    {
        ids.push(chars_of(nodes[i].id.as_str()));
        let p = match &nodes[i].parent_id {
            Some(pid) => Some(chars_of(pid.as_str())),
            None => None,
        };
        parents.push(p);
        visited.push(false);
        assert(visited@ =~= Seq::new((i + 1) as nat, |k: int| false));
        i = i + 1;
    }
    let mut stack: Vec<Vec<char>> = Vec::new();
    stack.push(chars_of(doc_id.as_str()));
    let mut out: Vec<usize> = Vec::new();
    let ghost fin = dfs_run(ns, cm, dfs_start(n as nat, doc_id@));
    assert(char_seqs(stack@) =~= seq![doc_id@]);
    assert(as_ints(out@) =~= Seq::<int>::empty());
    while stack.len() > 0
        invariant
            n == nodes@.len(),
            ns == views(nodes@),
            cm == children_map@,
            ids@.len() == n,
            parents@.len() == n,
            visited@.len() == n,
            forall|k: int| 0 <= k < ids@.len() ==> (#[trigger] ids@[k])@ == ns[k].id,
            forall|k: int| 0 <= k < parents@.len() ==> match #[trigger] parents@[k] {
                Some(p) => ns[k].parent_id == Some(p@),
                None => ns[k].parent_id is None,
            },
            forall|k: int| 0 <= k < out@.len() ==> #[trigger] out@[k] < n,
            fin == dfs_run(ns, cm, DfsState { stack: char_seqs(stack@), visited: visited@, out: as_ints(out@) }),
        decreases unvisited_count(visited@), stack@.len(),
    {
        let ghost before = DfsState { stack: char_seqs(stack@), visited: visited@, out: as_ints(out@) };
        let id = stack.pop().unwrap();
        proof {
            assert(char_seqs(stack@) =~= before.stack.drop_last());
            assert(id@ == before.stack.last());
        }
        match find_index(&ids, id.as_slice(), Ghost(ns)) {
            Some(idx) => {
                if !visited[idx] {
                    proof {
                        lemma_mark_visited(visited@, idx as int);
                    }
                    visited.set(idx, true);
                    out.push(idx);
                    let kids = kids_exec(&ids, &parents, children_map, id.as_slice(), Ghost(ns));
                    let ghost base = char_seqs(stack@);
                    let mut j: usize = kids.len();
                    assert(kids@.subrange(j as int, kids@.len() as int).len() == 0);
                    assert(char_seqs(stack@) =~= base + char_seqs(kids@.subrange(j as int, kids@.len() as int)).reverse());
                    while j > 0
                        invariant
                            j <= kids@.len(),
                            char_seqs(stack@) == base + char_seqs(kids@.subrange(j as int, kids@.len() as int)).reverse(),
                        decreases j,
                    {
                        let ghost prev = char_seqs(stack@);
                        let ghost t_old = char_seqs(kids@.subrange(j as int, kids@.len() as int));
                        let ghost t_new = char_seqs(kids@.subrange(j - 1, kids@.len() as int));
                        stack.push(copy_chars(kids[j - 1].as_slice()));
                        assert(char_seqs(stack@) =~= prev.push(kids@[j - 1]@));
                        assert(t_new.reverse() =~= t_old.reverse().push(kids@[j - 1]@));
                        j = j - 1;
                    }
                    assert(kids@.subrange(0, kids@.len() as int) =~= kids@);
                    assert(as_ints(out@) =~= before.out.push(idx as int));
                } else {
                    assert(as_ints(out@) =~= before.out);
                }
            },
            None => {
                assert(as_ints(out@) =~= before.out);
            },
        }
    }
    proof {
        assert(fin == DfsState { stack: char_seqs(stack@), visited: visited@, out: as_ints(out@) });
    }
    let ghost walked = out@.len();
    let mut k: usize = 0;
    assert(visited@.subrange(0, 0) =~= Seq::<bool>::empty());
    assert(as_ints(out@) =~= fin.out + unvisited_indices(visited@.subrange(0, 0)));
    while k < n
        invariant
            n == nodes@.len(),
            visited@.len() == n,
            k <= n,
            visited@ == fin.visited,
            forall|m: int| 0 <= m < out@.len() ==> #[trigger] out@[m] < n,
            as_ints(out@) == fin.out + unvisited_indices(visited@.subrange(0, k as int)),
        decreases n - k,
    {
        let ghost pre = visited@.subrange(0, k + 1);
        assert(pre.drop_last() =~= visited@.subrange(0, k as int));
        assert(pre.last() == visited@[k as int]);
        let ghost before = as_ints(out@);
        if !visited[k] {
            out.push(k);
            assert(as_ints(out@) =~= before.push(k as int));
        }
        assert(as_ints(out@) =~= fin.out + unvisited_indices(pre));
        k = k + 1;
    }
    assert(visited@.subrange(0, n as int) =~= visited@);
    let ghost order = as_ints(out@);
    assert(order == dfs_indices(ns, cm, doc_id@));
    let mut result: Vec<BlockNode> = Vec::new();
    let mut m: usize = 0;
    while m < out.len()
        invariant
            n == nodes@.len(),
            ns == views(nodes@),
            m <= out@.len(),
            order == as_ints(out@),
            forall|q: int| 0 <= q < out@.len() ==> #[trigger] out@[q] < n,
            result@.len() == m,
            forall|q: int| 0 <= q < m ==> {
                let i = #[trigger] order[q];
                0 <= i < nodes@.len() && result@[q]@ == nodes@[i]@
            },
        decreases out@.len() - m,
    {
        let idx = out[m];
        result.push(nodes[idx].duplicate());
        assert(order[m as int] == idx as int);
        m = m + 1;
    }
    result
}


/// The walk's bookkeeping: emitted indices are in range and distinct, and
/// exactly the visited nodes have been emitted.
pub open spec fn dfs_inv(n: nat, s: DfsState) -> bool {
    &&& s.visited.len() == n
    &&& forall|a: int| 0 <= a < s.out.len() ==> 0 <= #[trigger] s.out[a] < n
    &&& forall|a: int, b: int| 0 <= a < b < s.out.len() ==> #[trigger] s.out[a] != #[trigger] s.out[b]
    &&& forall|k: int| 0 <= k < n ==> (#[trigger] s.visited[k] <==> s.out.contains(k))
    &&& s.out.len() + unvisited_count(s.visited) == n
}

proof fn lemma_dfs_run_inv(ns: Seq<BlockNodeView>, cm: Seq<ChildOrder>, s: DfsState)
    requires
        dfs_inv(ns.len(), s),
    ensures
        dfs_inv(ns.len(), dfs_run(ns, cm, s)),
    decreases unvisited_count(s.visited), s.stack.len(),
{
    if s.stack.len() > 0 {
        let id = s.stack.last();
        let rest = s.stack.drop_last();
        match index_of_id(ns, id) {
            Some(i) => {
                if 0 <= i < s.visited.len() && !s.visited[i] {
                    lemma_mark_visited(s.visited, i);
                    let t = DfsState {
                        stack: rest + kids_for(ns, cm, id).reverse(),
                        visited: s.visited.update(i, true),
                        out: s.out.push(i),
                    };
                    assert(!s.out.contains(i));
                    assert forall|a: int, b: int| 0 <= a < b < t.out.len() implies #[trigger] t.out[a] != #[trigger] t.out[b] by {
                        if b == s.out.len() {
                            assert(t.out[a] == s.out[a]);
                        } else {
                            assert(t.out[a] == s.out[a] && t.out[b] == s.out[b]);
                        }
                    }
                    assert forall|k: int| 0 <= k < ns.len() implies (#[trigger] t.visited[k] <==> t.out.contains(k)) by {
                        if k == i {
                            assert(t.out[s.out.len() as int] == i);
                        } else {
                            if s.out.contains(k) {
                                let a = choose|a: int| 0 <= a < s.out.len() && s.out[a] == k;
                                assert(t.out[a] == k);
                            }
                            if t.out.contains(k) {
                                let a = choose|a: int| 0 <= a < t.out.len() && t.out[a] == k;
                                assert(s.out[a] == k);
                            }
                        }
                    }
                    lemma_dfs_run_inv(ns, cm, t);
                } else {
                    lemma_dfs_run_inv(ns, cm, DfsState { stack: rest, visited: s.visited, out: s.out });
                }
            },
            None => {
                lemma_dfs_run_inv(ns, cm, DfsState { stack: rest, visited: s.visited, out: s.out });
            },
        }
    }
}

proof fn lemma_unvisited_all(n: nat)
    ensures
        unvisited_count(Seq::new(n, |i: int| false)) == n,
    decreases n,
{
    if n > 0 {
        assert(Seq::new(n, |i: int| false).drop_last() =~= Seq::new((n - 1) as nat, |i: int| false));
        lemma_unvisited_all((n - 1) as nat);
    }
}

proof fn lemma_unvisited_indices(v: Seq<bool>)
    ensures
        unvisited_indices(v).len() == unvisited_count(v),
        forall|k: int| unvisited_indices(v).contains(k) <==> 0 <= k < v.len() && !v[k],
        forall|a: int, b: int| 0 <= a < b < unvisited_indices(v).len() ==> #[trigger] unvisited_indices(v)[a] < #[trigger] unvisited_indices(v)[b],
        forall|a: int| 0 <= a < unvisited_indices(v).len() ==> 0 <= #[trigger] unvisited_indices(v)[a] < v.len(),
    decreases v.len(),
{
    if v.len() > 0 {
        let p = v.drop_last();
        lemma_unvisited_indices(p);
        let u = unvisited_indices(v);
        let q = unvisited_indices(p);
        assert forall|k: int| u.contains(k) <==> 0 <= k < v.len() && !v[k] by {
            if u.contains(k) {
                let a = choose|a: int| 0 <= a < u.len() && u[a] == k;
                if a < q.len() {
                    assert(q[a] == k);
                    assert(q.contains(k));
                    assert(p[k] == v[k]);
                } else {
                    assert(!v.last());
                    assert(k == v.len() - 1);
                }
            }
            if 0 <= k < v.len() && !v[k] {
                if k < v.len() - 1 {
                    assert(p[k] == v[k]);
                    assert(q.contains(k));
                    let a = choose|a: int| 0 <= a < q.len() && q[a] == k;
                    assert(u[a] == k);
                } else {
                    assert(u[q.len() as int] == k);
                }
            }
        }
    }
}

/// The document order lists every node exactly once: each index in range
/// appears, and no position repeats another.
pub proof fn lemma_dfs_permutation(ns: Seq<BlockNodeView>, cm: Seq<ChildOrder>, doc: Seq<char>)
    ensures
        forall|k: int| 0 <= k < ns.len() ==> dfs_indices(ns, cm, doc).contains(k),
        forall|a: int| 0 <= a < dfs_indices(ns, cm, doc).len() ==> 0 <= #[trigger] dfs_indices(ns, cm, doc)[a] < ns.len(),
        forall|a: int, b: int| 0 <= a < b < dfs_indices(ns, cm, doc).len()
            ==> #[trigger] dfs_indices(ns, cm, doc)[a] != #[trigger] dfs_indices(ns, cm, doc)[b],
        dfs_indices(ns, cm, doc).len() == ns.len(),
{
    let s0 = dfs_start(ns.len(), doc);
    lemma_unvisited_all(ns.len());
    assert forall|k: int| 0 <= k < ns.len() implies (#[trigger] s0.visited[k] <==> s0.out.contains(k)) by {}
    lemma_dfs_run_inv(ns, cm, s0);
    let f = dfs_run(ns, cm, s0);
    lemma_unvisited_indices(f.visited);
    let u = unvisited_indices(f.visited);
    let d = f.out + u;
    assert(d == dfs_indices(ns, cm, doc));
    assert forall|k: int| 0 <= k < ns.len() implies d.contains(k) by {
        if f.visited[k] {
            let a = choose|a: int| 0 <= a < f.out.len() && f.out[a] == k;
            assert(d[a] == k);
        } else {
            assert(u.contains(k));
            let a = choose|a: int| 0 <= a < u.len() && u[a] == k;
            assert(d[f.out.len() + a] == k);
        }
    }
    assert forall|a: int| 0 <= a < d.len() implies 0 <= #[trigger] d[a] < ns.len() by {
        if a >= f.out.len() {
            assert(d[a] == u[a - f.out.len()]);
        }
    }
    assert forall|a: int, b: int| 0 <= a < b < d.len() implies #[trigger] d[a] != #[trigger] d[b] by {
        if b < f.out.len() {
        } else if a >= f.out.len() {
            assert(d[a] == u[a - f.out.len()] && d[b] == u[b - f.out.len()]);
        } else {
            let x = d[a];
            assert(f.out[a] == x);
            assert(f.out.contains(x));
            assert(f.visited[x]);
            assert(d[b] == u[b - f.out.len()]);
            assert(u.contains(d[b]));
        }
    }
}


proof fn lemma_index_of_id(ns: Seq<BlockNodeView>, id: Seq<char>)
    ensures
        index_of_id(ns, id) matches Some(i) ==> 0 <= i < ns.len() && ns[i].id == id,
        (exists|k: int| 0 <= k < ns.len() && ns[k].id == id) ==> index_of_id(ns, id) is Some,
    decreases ns.len(),
{
    if ns.len() > 0 {
        lemma_index_of_id(ns.drop_last(), id);
        if ns.last().id != id {
            if exists|k: int| 0 <= k < ns.len() && ns[k].id == id {
                let k = choose|k: int| 0 <= k < ns.len() && ns[k].id == id;
                assert(ns.drop_last()[k] == ns[k]);
            }
        }
    }
}

/// Block at position `p` of the emitted order lists `x` among the children
/// it visits.
pub open spec fn visits_child(ns: Seq<BlockNodeView>, cm: Seq<ChildOrder>, out: Seq<int>, p: int, x: Seq<char>) -> bool {
    kids_for(ns, cm, ns[out[p]].id).contains(x)
}

/// The walk's order: its first block is the document, and every later
/// block is a child visited by some block emitted before it.
pub open spec fn walk_order(ns: Seq<BlockNodeView>, cm: Seq<ChildOrder>, doc: Seq<char>, out: Seq<int>) -> bool {
    &&& out.len() > 0 ==> ns[out[0]].id == doc
    &&& forall|a: int| #![trigger out[a]] 0 < a < out.len() ==> exists|b: int| 0 <= b < a
        && #[trigger] visits_child(ns, cm, out, b, ns[out[a]].id)
}

/// What the walk keeps of its stack: before anything is emitted only the
/// document is on it; after, every id on it is a child visited by an
/// emitted block.
pub open spec fn stack_order(ns: Seq<BlockNodeView>, cm: Seq<ChildOrder>, doc: Seq<char>, s: DfsState) -> bool {
    &&& s.out.len() == 0 ==> (s.stack.len() <= 1 && forall|x: int| 0 <= x < s.stack.len() ==> s.stack[x] == doc)
    &&& s.out.len() > 0 ==> forall|x: int| 0 <= x < s.stack.len() ==> #[trigger] has_visitor(ns, cm, s.out, s.stack[x])
}

/// Some emitted block visits `x` as a child.
pub open spec fn has_visitor(ns: Seq<BlockNodeView>, cm: Seq<ChildOrder>, out: Seq<int>, x: Seq<char>) -> bool {
    exists|b: int| 0 <= b < out.len() && #[trigger] visits_child(ns, cm, out, b, x)
}

proof fn lemma_dfs_run_order(ns: Seq<BlockNodeView>, cm: Seq<ChildOrder>, doc: Seq<char>, s: DfsState)
    requires
        dfs_inv(ns.len(), s),
        stack_order(ns, cm, doc, s),
        walk_order(ns, cm, doc, s.out),
    ensures
        walk_order(ns, cm, doc, dfs_run(ns, cm, s).out),
    decreases unvisited_count(s.visited), s.stack.len(),
{
    if s.stack.len() > 0 {
        let id = s.stack.last();
        let rest = s.stack.drop_last();
        let skip = DfsState { stack: rest, visited: s.visited, out: s.out };
        assert(stack_order(ns, cm, doc, skip)) by {
            if s.out.len() == 0 {
                assert(rest.len() == 0);
            } else {
                assert forall|x: int| 0 <= x < rest.len() implies #[trigger] has_visitor(ns, cm, s.out, rest[x]) by {
                    assert(rest[x] == s.stack[x]);
                    assert(has_visitor(ns, cm, s.out, s.stack[x]));
                }
            }
        }
        lemma_index_of_id(ns, id);
        match index_of_id(ns, id) {
            Some(i) => {
                if 0 <= i < s.visited.len() && !s.visited[i] {
                    lemma_mark_visited(s.visited, i);
                    let kids = kids_for(ns, cm, id);
                    let t = DfsState {
                        stack: rest + kids.reverse(),
                        visited: s.visited.update(i, true),
                        out: s.out.push(i),
                    };
                    // the invariant of the walk carries over as in `lemma_dfs_run_inv`
                    assert(!s.out.contains(i));
                    assert forall|a: int, b: int| 0 <= a < b < t.out.len() implies #[trigger] t.out[a] != #[trigger] t.out[b] by {
                        if b == s.out.len() {
                            assert(t.out[a] == s.out[a]);
                        } else {
                            assert(t.out[a] == s.out[a] && t.out[b] == s.out[b]);
                        }
                    }
                    assert forall|k: int| 0 <= k < ns.len() implies (#[trigger] t.visited[k] <==> t.out.contains(k)) by {
                        if k == i {
                            assert(t.out[s.out.len() as int] == i);
                        } else {
                            if s.out.contains(k) {
                                let a = choose|a: int| 0 <= a < s.out.len() && s.out[a] == k;
                                assert(t.out[a] == k);
                            }
                            if t.out.contains(k) {
                                let a = choose|a: int| 0 <= a < t.out.len() && t.out[a] == k;
                                assert(s.out[a] == k);
                            }
                        }
                    }
                    let p = s.out.len() as int;
                    assert(t.out[p] == i);
                    assert forall|b: int, x: Seq<char>| 0 <= b < s.out.len() && visits_child(ns, cm, s.out, b, x)
                        implies #[trigger] visits_child(ns, cm, t.out, b, x) by {
                        assert(t.out[b] == s.out[b]);
                    }
                    assert(walk_order(ns, cm, doc, t.out)) by {
                        if s.out.len() == 0 {
                            assert(id == doc);
                        } else {
                            assert(t.out[0] == s.out[0]);
                            assert forall|a: int| #![trigger t.out[a]] 0 < a < t.out.len() implies exists|b: int| 0 <= b < a
                                && #[trigger] visits_child(ns, cm, t.out, b, ns[t.out[a]].id) by {
                                if a < p {
                                    assert(t.out[a] == s.out[a]);
                                    let b = choose|b: int| 0 <= b < a && #[trigger] visits_child(ns, cm, s.out, b, ns[s.out[a]].id);
                                    assert(visits_child(ns, cm, t.out, b, ns[t.out[a]].id));
                                } else {
                                    assert(has_visitor(ns, cm, s.out, s.stack[s.stack.len() - 1]));
                                    let b = choose|b: int| 0 <= b < s.out.len()
                                        && #[trigger] visits_child(ns, cm, s.out, b, s.stack[s.stack.len() - 1]);
                                    assert(t.out[b] == s.out[b]);
                                    assert(visits_child(ns, cm, t.out, b, ns[t.out[a]].id));
                                }
                            }
                        }
                    }
                    assert(stack_order(ns, cm, doc, t)) by {
                        if s.out.len() == 0 {
                            assert(rest.len() == 0);
                        }
                        assert forall|x: int| 0 <= x < t.stack.len() implies #[trigger] has_visitor(ns, cm, t.out, t.stack[x]) by {
                            if x < rest.len() {
                                assert(s.out.len() > 0);
                                assert(t.stack[x] == s.stack[x]);
                                assert(has_visitor(ns, cm, s.out, s.stack[x]));
                                let b = choose|b: int| 0 <= b < s.out.len() && #[trigger] visits_child(ns, cm, s.out, b, s.stack[x]);
                                assert(t.out[b] == s.out[b]);
                                assert(visits_child(ns, cm, t.out, b, t.stack[x]));
                            } else {
                                let y = x - rest.len();
                                assert(t.stack[x] == kids.reverse()[y]);
                                assert(kids.reverse()[y] == kids[kids.len() - 1 - y]);
                                assert(kids.contains(t.stack[x]));
                                assert(visits_child(ns, cm, t.out, p, t.stack[x]));
                            }
                            assert(has_visitor(ns, cm, t.out, t.stack[x]));
                        }
                    }
                    lemma_dfs_run_order(ns, cm, doc, t);
                } else {
                    lemma_dfs_run_order(ns, cm, doc, skip);
                }
            },
            None => {
                lemma_dfs_run_order(ns, cm, doc, skip);
            },
        }
    }
}

/// The document order as the walk makes it: when a block has the document's
/// id, one such block comes first; every block the walk reaches after it is
/// a child (by the recorded order, or else by `parent_id`) of a block placed
/// earlier; then come the blocks the walk never reached, in list order.
pub proof fn lemma_dfs_order_shape(ns: Seq<BlockNodeView>, cm: Seq<ChildOrder>, doc: Seq<char>)
    ensures
        ({
            let f = dfs_run(ns, cm, dfs_start(ns.len(), doc));
            &&& walk_order(ns, cm, doc, f.out)
            &&& dfs_indices(ns, cm, doc) == f.out + unvisited_indices(f.visited)
            &&& forall|a: int, b: int| 0 <= a < b < unvisited_indices(f.visited).len()
                ==> #[trigger] unvisited_indices(f.visited)[a] < #[trigger] unvisited_indices(f.visited)[b]
            &&& (exists|k: int| 0 <= k < ns.len() && ns[k].id == doc) ==> f.out.len() > 0
        }),
        (exists|k: int| 0 <= k < ns.len() && ns[k].id == doc) ==> {
            &&& dfs_indices(ns, cm, doc).len() > 0
            &&& ns[dfs_indices(ns, cm, doc)[0]].id == doc
        },
{
    let s0 = dfs_start(ns.len(), doc);
    lemma_unvisited_all(ns.len());
    assert forall|k: int| 0 <= k < ns.len() implies (#[trigger] s0.visited[k] <==> s0.out.contains(k)) by {}
    lemma_dfs_run_order(ns, cm, doc, s0);
    let f = dfs_run(ns, cm, s0);
    lemma_unvisited_indices(f.visited);
    if exists|k: int| 0 <= k < ns.len() && ns[k].id == doc {
        lemma_index_of_id(ns, doc);
        let i = index_of_id(ns, doc).unwrap();
        lemma_mark_visited(s0.visited, i);
        let t = DfsState { stack: seq![doc].drop_last() + kids_for(ns, cm, doc).reverse(), visited: s0.visited.update(i, true), out: s0.out.push(i) };
        assert(f == dfs_run(ns, cm, t));
        lemma_dfs_run_inv(ns, cm, s0);
        lemma_dfs_run_grows(ns, cm, t);
        assert(t.out[0] == i);
        assert(f.out[0] == i);
        assert(dfs_indices(ns, cm, doc)[0] == f.out[0]);
    }
}

proof fn lemma_dfs_run_grows(ns: Seq<BlockNodeView>, cm: Seq<ChildOrder>, s: DfsState)
    ensures
        dfs_run(ns, cm, s).out.len() >= s.out.len(),
        forall|a: int| 0 <= a < s.out.len() ==> dfs_run(ns, cm, s).out[a] == #[trigger] s.out[a],
    decreases unvisited_count(s.visited), s.stack.len(),
{
    if s.stack.len() > 0 {
        let id = s.stack.last();
        let rest = s.stack.drop_last();
        match index_of_id(ns, id) {
            Some(i) => {
                if 0 <= i < s.visited.len() && !s.visited[i] {
                    lemma_mark_visited(s.visited, i);
                    let t = DfsState {
                        stack: rest + kids_for(ns, cm, id).reverse(),
                        visited: s.visited.update(i, true),
                        out: s.out.push(i),
                    };
                    lemma_dfs_run_grows(ns, cm, t);
                    assert forall|a: int| 0 <= a < s.out.len() implies dfs_run(ns, cm, s).out[a] == #[trigger] s.out[a] by {
                        assert(t.out[a] == s.out[a]);
                    }
                } else {
                    lemma_dfs_run_grows(ns, cm, DfsState { stack: rest, visited: s.visited, out: s.out });
                }
            },
            None => {
                lemma_dfs_run_grows(ns, cm, DfsState { stack: rest, visited: s.visited, out: s.out });
            },
        }
    }
}

/// `x` is among the children that block `out[a]` visits.
pub open spec fn emitted_kid(ns: Seq<BlockNodeView>, cm: Seq<ChildOrder>, out: Seq<int>, a: int, x: Seq<char>) -> bool {
    kids_for(ns, cm, ns[out[a]].id).contains(x)
}

/// An id whose block exists is visited or still waits on the stack.
pub open spec fn covered(ns: Seq<BlockNodeView>, s: DfsState, x: Seq<char>) -> bool {
    index_of_id(ns, x) matches Some(j) ==> (s.visited[j] || s.stack.contains(x))
}

/// Nothing the walk owes is lost: the document and every child of an
/// emitted block is visited or still on the stack.
pub open spec fn walk_complete(ns: Seq<BlockNodeView>, cm: Seq<ChildOrder>, doc: Seq<char>, s: DfsState) -> bool {
    &&& covered(ns, s, doc)
    &&& forall|a: int, x: Seq<char>| 0 <= a < s.out.len() && #[trigger] emitted_kid(ns, cm, s.out, a, x) ==> covered(ns, s, x)
}

proof fn lemma_dfs_run_complete(ns: Seq<BlockNodeView>, cm: Seq<ChildOrder>, doc: Seq<char>, s: DfsState)
    requires
        dfs_inv(ns.len(), s),
        walk_complete(ns, cm, doc, s),
    ensures
        walk_complete(ns, cm, doc, dfs_run(ns, cm, s)),
        dfs_run(ns, cm, s).stack.len() == 0,
    decreases unvisited_count(s.visited), s.stack.len(),
{
    if s.stack.len() > 0 {
        let id = s.stack.last();
        let rest = s.stack.drop_last();
        lemma_index_of_id(ns, id);
        // an id covered before the pop stays covered, given that the popped id ends up visited or has no block
        assert forall|x: Seq<char>| #[trigger] s.stack.contains(x) && x != id implies rest.contains(x) by {
            let m = choose|m: int| 0 <= m < s.stack.len() && s.stack[m] == x;
            assert(m < s.stack.len() - 1);
            assert(rest[m] == x);
        }
        match index_of_id(ns, id) {
            Some(i) => {
                if 0 <= i < s.visited.len() && !s.visited[i] {
                    lemma_mark_visited(s.visited, i);
                    let kids = kids_for(ns, cm, id);
                    let t = DfsState {
                        stack: rest + kids.reverse(),
                        visited: s.visited.update(i, true),
                        out: s.out.push(i),
                    };
                    assert(!s.out.contains(i));
                    assert forall|a: int, b: int| 0 <= a < b < t.out.len() implies #[trigger] t.out[a] != #[trigger] t.out[b] by {
                        if b == s.out.len() {
                            assert(t.out[a] == s.out[a]);
                        } else {
                            assert(t.out[a] == s.out[a] && t.out[b] == s.out[b]);
                        }
                    }
                    assert forall|k: int| 0 <= k < ns.len() implies (#[trigger] t.visited[k] <==> t.out.contains(k)) by {
                        if k == i {
                            assert(t.out[s.out.len() as int] == i);
                        } else {
                            if s.out.contains(k) {
                                let a = choose|a: int| 0 <= a < s.out.len() && s.out[a] == k;
                                assert(t.out[a] == k);
                            }
                            if t.out.contains(k) {
                                let a = choose|a: int| 0 <= a < t.out.len() && t.out[a] == k;
                                assert(s.out[a] == k);
                            }
                        }
                    }
                    assert forall|x: Seq<char>| covered(ns, s, x) implies #[trigger] covered(ns, t, x) by {
                        lemma_index_of_id(ns, x);
                        if index_of_id(ns, x) is Some {
                            let j = index_of_id(ns, x).unwrap();
                            if !s.visited[j] && x == id {
                                assert(t.visited[j]);
                            } else if !s.visited[j] {
                                assert(s.stack.contains(x));
                                assert(rest.contains(x));
                                let m = choose|m: int| 0 <= m < rest.len() && rest[m] == x;
                                assert(t.stack[m] == x);
                            } else {
                                assert(t.visited[j]);
                            }
                        }
                    }
                    assert forall|x: Seq<char>| #[trigger] kids.contains(x) implies covered(ns, t, x) by {
                        let m = choose|m: int| 0 <= m < kids.len() && kids[m] == x;
                        let y = kids.len() - 1 - m;
                        assert(kids.reverse()[y] == x);
                        assert(t.stack[rest.len() + y] == x);
                    }
                    assert(walk_complete(ns, cm, doc, t)) by {
                        assert forall|a: int, x: Seq<char>| 0 <= a < t.out.len() && #[trigger] emitted_kid(ns, cm, t.out, a, x)
                            implies covered(ns, t, x) by {
                            if a < s.out.len() {
                                assert(t.out[a] == s.out[a]);
                                assert(emitted_kid(ns, cm, s.out, a, x));
                                assert(covered(ns, s, x));
                            } else {
                                assert(t.out[a] == i);
                                assert(ns[i].id == id);
                                assert(kids.contains(x));
                            }
                        }
                    }
                    lemma_dfs_run_complete(ns, cm, doc, t);
                } else {
                    let u = DfsState { stack: rest, visited: s.visited, out: s.out };
                    assert forall|x: Seq<char>| covered(ns, s, x) implies #[trigger] covered(ns, u, x) by {
                        lemma_index_of_id(ns, x);
                        if index_of_id(ns, x) is Some {
                            let j = index_of_id(ns, x).unwrap();
                            if !s.visited[j] && x != id {
                                assert(s.stack.contains(x));
                                assert(rest.contains(x));
                            }
                        }
                    }
                    assert(walk_complete(ns, cm, doc, u)) by {
                        assert forall|a: int, x: Seq<char>| 0 <= a < u.out.len() && #[trigger] emitted_kid(ns, cm, u.out, a, x)
                            implies covered(ns, u, x) by {
                            assert(covered(ns, s, x));
                        }
                    }
                    lemma_dfs_run_complete(ns, cm, doc, u);
                }
            },
            None => {
                let u = DfsState { stack: rest, visited: s.visited, out: s.out };
                assert forall|x: Seq<char>| covered(ns, s, x) implies #[trigger] covered(ns, u, x) by {
                    lemma_index_of_id(ns, x);
                    if index_of_id(ns, x) is Some {
                        let j = index_of_id(ns, x).unwrap();
                        if !s.visited[j] {
                            assert(x != id);
                            assert(s.stack.contains(x));
                            assert(rest.contains(x));
                        }
                    }
                }
                assert(walk_complete(ns, cm, doc, u)) by {
                    assert forall|a: int, x: Seq<char>| 0 <= a < u.out.len() && #[trigger] emitted_kid(ns, cm, u.out, a, x)
                        implies covered(ns, u, x) by {
                        assert(covered(ns, s, x));
                    }
                }
                lemma_dfs_run_complete(ns, cm, doc, u);
            },
        }
    }
}

/// `c` is a chain from block to visited child: every id but the last has a
/// block, and lists the next id among the children it visits.
pub open spec fn child_chain(ns: Seq<BlockNodeView>, cm: Seq<ChildOrder>, c: Seq<Seq<char>>) -> bool {
    &&& c.len() >= 1
    &&& forall|m: int| 0 <= m < c.len() - 1 ==> index_of_id(ns, #[trigger] c[m]) is Some
        && kids_for(ns, cm, c[m]).contains(c[m + 1])
}

/// `id` is reached from the document through visited children.
pub open spec fn reaches(ns: Seq<BlockNodeView>, cm: Seq<ChildOrder>, doc: Seq<char>, id: Seq<char>) -> bool {
    exists|c: Seq<Seq<char>>| #[trigger] child_chain(ns, cm, c) && c[0] == doc && c.last() == id
}

/// Every block reached from the document is placed by the walk, before
/// every block it does not reach: in the document order, the walk's blocks
/// (document first, each later one a child of an earlier one, see
/// [`lemma_dfs_order_shape`]) come first, then the blocks it did not reach.
/// A block counts as reached when its id is reached and it is the block
/// that id names (the last with it; with distinct ids, every block).
pub proof fn lemma_dfs_reaches_all(ns: Seq<BlockNodeView>, cm: Seq<ChildOrder>, doc: Seq<char>)
    ensures
        ({
            let f = dfs_run(ns, cm, dfs_start(ns.len(), doc));
            &&& forall|k: int| 0 <= k < ns.len() && reaches(ns, cm, doc, ns[k].id) && index_of_id(ns, ns[k].id) == Some(k)
                ==> #[trigger] f.out.contains(k)
            &&& forall|k: int| 0 <= k < ns.len() && !f.out.contains(k) ==> #[trigger] unvisited_indices(f.visited).contains(k)
            &&& dfs_indices(ns, cm, doc) == f.out + unvisited_indices(f.visited)
        }),
{
    let s0 = dfs_start(ns.len(), doc);
    lemma_unvisited_all(ns.len());
    assert forall|k: int| 0 <= k < ns.len() implies (#[trigger] s0.visited[k] <==> s0.out.contains(k)) by {}
    assert(s0.stack[0] == doc);
    assert(s0.stack.contains(doc));
    assert(walk_complete(ns, cm, doc, s0));
    lemma_dfs_run_complete(ns, cm, doc, s0);
    lemma_dfs_run_inv(ns, cm, s0);
    let f = dfs_run(ns, cm, s0);
    lemma_unvisited_indices(f.visited);
    assert forall|k: int| 0 <= k < ns.len() && reaches(ns, cm, doc, ns[k].id) && index_of_id(ns, ns[k].id) == Some(k)
        implies #[trigger] f.out.contains(k) by {
        let c = choose|c: Seq<Seq<char>>| #[trigger] child_chain(ns, cm, c) && c[0] == doc && c.last() == ns[k].id;
        lemma_chain_visited(ns, cm, doc, c, f, (c.len() - 1) as int);
        assert(f.visited[k]);
    }
    assert forall|k: int| 0 <= k < ns.len() && !f.out.contains(k) implies #[trigger] unvisited_indices(f.visited).contains(k) by {
        assert(!f.visited[k]);
    }
}

proof fn lemma_chain_visited(ns: Seq<BlockNodeView>, cm: Seq<ChildOrder>, doc: Seq<char>, c: Seq<Seq<char>>, f: DfsState, m: int)
    requires
        dfs_inv(ns.len(), f),
        walk_complete(ns, cm, doc, f),
        f.stack.len() == 0,
        child_chain(ns, cm, c),
        c[0] == doc,
        0 <= m < c.len(),
    ensures
        index_of_id(ns, c[m]) matches Some(j) ==> f.visited[j],
    decreases m,
{
    lemma_index_of_id(ns, c[m]);
    if m == 0 {
        assert(covered(ns, f, doc));
    } else {
        lemma_chain_visited(ns, cm, doc, c, f, m - 1);
        assert(index_of_id(ns, c[m - 1]) is Some && kids_for(ns, cm, c[m - 1]).contains(c[m]));
        let jp = index_of_id(ns, c[m - 1]).unwrap();
        lemma_index_of_id(ns, c[m - 1]);
        assert(f.out.contains(jp));
        let a = choose|a: int| 0 <= a < f.out.len() && f.out[a] == jp;
        assert(ns[f.out[a]].id == c[m - 1]);
        assert(emitted_kid(ns, cm, f.out, a, c[m]));
        assert(covered(ns, f, c[m]));
    }
}

/// The walk from a given stack, visited flags and output.
pub open spec fn walk_from(ns: Seq<BlockNodeView>, cm: Seq<ChildOrder>, stack: Seq<Seq<char>>, v: Seq<bool>, o: Seq<int>) -> DfsState {
    dfs_run(ns, cm, DfsState { stack, visited: v, out: o })
}

/// The walk finishes all it does from the top part `b` of its stack before
/// it turns to the part `a` below: walking `a + b` is walking `b` to the
/// end, then walking `a` from where that left the flags and the output.
pub proof fn lemma_walk_top_first(
    ns: Seq<BlockNodeView>,
    cm: Seq<ChildOrder>,
    a: Seq<Seq<char>>,
    b: Seq<Seq<char>>,
    v: Seq<bool>,
    o: Seq<int>,
)
    ensures
        ({
            let r = walk_from(ns, cm, b, v, o);
            walk_from(ns, cm, a + b, v, o) == walk_from(ns, cm, a, r.visited, r.out)
        }),
    decreases unvisited_count(v), b.len(),
{
    if b.len() == 0 {
        assert(a + b =~= a);
    } else {
        let id = b.last();
        assert((a + b).last() == id);
        assert((a + b).drop_last() =~= a + b.drop_last());
        match index_of_id(ns, id) {
            Some(i) => {
                if 0 <= i < v.len() && !v[i] {
                    lemma_mark_visited(v, i);
                    let k = kids_for(ns, cm, id).reverse();
                    assert((a + b.drop_last()) + k =~= a + (b.drop_last() + k));
                    lemma_walk_top_first(ns, cm, a, b.drop_last() + k, v.update(i, true), o.push(i));
                } else {
                    lemma_walk_top_first(ns, cm, a, b.drop_last(), v, o);
                }
            },
            None => {
                lemma_walk_top_first(ns, cm, a, b.drop_last(), v, o);
            },
        }
    }
}

/// Siblings keep their order: once a block is placed its children are
/// pushed in reverse, and the walk then takes them first child first,
/// each child's whole turn (its block and everything it reaches that is
/// not yet placed) before the next child's. Each turn only appends to the
/// output.
pub proof fn lemma_walk_children_in_order(
    ns: Seq<BlockNodeView>,
    cm: Seq<ChildOrder>,
    a: Seq<Seq<char>>,
    ks: Seq<Seq<char>>,
    v: Seq<bool>,
    o: Seq<int>,
)
    requires
        ks.len() > 0,
    ensures
        ({
            let r = walk_from(ns, cm, seq![ks[0]], v, o);
            &&& walk_from(ns, cm, a + ks.reverse(), v, o)
                == walk_from(ns, cm, a + ks.drop_first().reverse(), r.visited, r.out)
            &&& r.out.len() >= o.len()
            &&& r.out.subrange(0, o.len() as int) == o
        }),
{
    assert(ks.reverse() =~= ks.drop_first().reverse() + seq![ks[0]]);
    assert(a + ks.reverse() =~= (a + ks.drop_first().reverse()) + seq![ks[0]]);
    lemma_walk_top_first(ns, cm, a + ks.drop_first().reverse(), seq![ks[0]], v, o);
    let s = DfsState { stack: seq![ks[0]], visited: v, out: o };
    lemma_dfs_run_grows(ns, cm, s);
    let r = walk_from(ns, cm, seq![ks[0]], v, o);
    assert(r.out.subrange(0, o.len() as int) =~= o);
}

/// The document's walk places the document block first and then walks its
/// children (see [`lemma_walk_children_in_order`]) with only that block
/// marked as placed.
pub proof fn lemma_walk_starts_at_doc(ns: Seq<BlockNodeView>, cm: Seq<ChildOrder>, doc: Seq<char>, i: int)
    requires
        index_of_id(ns, doc) == Some(i),
    ensures
        dfs_run(ns, cm, dfs_start(ns.len(), doc)) == walk_from(
            ns,
            cm,
            Seq::<Seq<char>>::empty() + kids_for(ns, cm, doc).reverse(),
            Seq::new(ns.len(), |k: int| false).update(i, true),
            seq![i],
        ),
{
    lemma_index_of_id(ns, doc);
    let s0 = dfs_start(ns.len(), doc);
    assert(s0.stack.drop_last() =~= Seq::<Seq<char>>::empty());
    assert(s0.out.push(i) =~= seq![i]);
}

// ---------------------------------------------------------------------------
// Rows, annotation and the bundle
// ---------------------------------------------------------------------------

/// A row of the `blocks` table; absent text columns read as empty.
#[derive(Debug)]
pub struct BlockRow {
    pub id: String,
    pub parent_id: String,
    pub root_id: String,
    pub box_: String,
    pub hpath: String,
    pub markdown: String,
    pub block_type: String,
    pub subtype: String,
    pub ial: String,
    pub sort: i64,
    pub created: String,
    pub updated: String,
    pub hash: String,
}

/// The statement that loads every block of a document.
pub open spec fn doc_blocks_query(doc: Seq<char>) -> Seq<char> {
    "SELECT id, parent_id, root_id, box AS \"box_\", hpath, markdown,\n                  type, subtype, ial, sort, created, updated, hash\n           FROM blocks\n           WHERE root_id = '"@
        + doc + "'\n           ORDER BY sort, id"@
}

/// Builds the statement that loads every block of a document, ordered by
/// `sort` then id.
pub fn doc_blocks_sql(doc_id: &BlockId) -> (r: String)
    ensures
        r@ == doc_blocks_query(doc_id@),
{
    let mut s = owned(
        "SELECT id, parent_id, root_id, box AS \"box_\", hpath, markdown,\n                  type, subtype, ial, sort, created, updated, hash\n           FROM blocks\n           WHERE root_id = '",
    );
    push_str(&mut s, doc_id.as_str());
    push_str(&mut s, "'\n           ORDER BY sort, id");
    s
}

/// Which id of a row failed to parse.
#[derive(Debug, Clone, Copy, PartialEq, Eq, Structural)]
pub enum IdField {
    Block,
    Root,
    Parent,
    Notebook,
}

/// Why a document could not be loaded.
#[derive(Debug)]
pub enum LoadError {
    /// The document has no rows: `NotFound` with its id.
    Missing(SiyuanError),
    /// An id column of a row does not parse.
    BadId(IdField, IdError),
    /// No row is the document block itself.
    NoDocumentBlock,
}

/// The context of an id field in error messages.
pub open spec fn field_context(f: IdField) -> Seq<char> {
    match f {
        IdField::Block => "parsing block id: "@,
        IdField::Root => "parsing root id: "@,
        IdField::Parent => "parsing parent id: "@,
        IdField::Notebook => "parsing notebook id: "@,
    }
}

/// Message of a [`LoadError`], with the cause after the context.
pub open spec fn load_error_message(e: LoadError) -> Seq<char> {
    match e {
        LoadError::Missing(s) => error_message(s),
        LoadError::BadId(f, c) => field_context(f) + id_error_message(c),
        LoadError::NoDocumentBlock => "no document block (`type=d`) in result"@,
    }
}

impl LoadError {
    /// Human-readable message.
    pub fn to_string(&self) -> (r: String)
        ensures
            r@ == load_error_message(*self),
    {
        match self {
            LoadError::Missing(e) => e.to_string(),
            LoadError::BadId(f, c) => {
                let mut s = match f {
                    IdField::Block => owned("parsing block id: "),
                    IdField::Root => owned("parsing root id: "),
                    IdField::Parent => owned("parsing parent id: "),
                    IdField::Notebook => owned("parsing notebook id: "),
                };
                let m = c.to_string();
                push_str(&mut s, m.as_str());
                s
            },
            LoadError::NoDocumentBlock => owned("no document block (`type=d`) in result"),
        }
    }
}

/// `None` for the empty string, else the string.
pub open spec fn non_empty(s: Seq<char>) -> Option<Seq<char>> {
    if s.len() == 0 { None } else { Some(s) }
}

/// The first id column of a row that does not parse, in the order block,
/// root, parent (when present), notebook.
pub open spec fn row_fault(r: BlockRow) -> Option<IdField> {
    if !is_id_text(r.id@) {
        Some(IdField::Block)
    } else if !is_id_text(r.root_id@) {
        Some(IdField::Root)
    } else if r.parent_id@.len() != 0 && !is_id_text(r.parent_id@) {
        Some(IdField::Parent)
    } else if !is_id_text(r.box_@) {
        Some(IdField::Notebook)
    } else {
        None
    }
}

/// The text of the faulty column.
pub open spec fn fault_text(r: BlockRow, f: IdField) -> Seq<char> {
    match f {
        IdField::Block => r.id@,
        IdField::Root => r.root_id@,
        IdField::Parent => r.parent_id@,
        IdField::Notebook => r.box_@,
    }
}

/// The node lifted from a row whose ids parse: empty optional columns are
/// absent, the role follows the type, no attributes or children yet.
pub open spec fn row_node(r: BlockRow) -> BlockNodeView {
    BlockNodeView {
        id: r.id@,
        root_id: r.root_id@,
        parent_id: non_empty(r.parent_id@),
        notebook_id: r.box_@,
        block_type: kernel_type_of(r.block_type@),
        subtype: non_empty(r.subtype@),
        role: role_of(kernel_type_of(r.block_type@)),
        markdown: r.markdown@,
        kramdown: None,
        ial: non_empty(r.ial@),
        attrs: Map::empty(),
        hash: non_empty(r.hash@),
        created: non_empty(r.created@),
        updated: non_empty(r.updated@),
        sort: Some(r.sort),
        structural_children: Seq::empty(),
        section_children: Seq::empty(),
    }
}

/// Types whose children are put in document order: `d/h/l/i/s/b`.
pub open spec fn orders_children(t: BlockType) -> bool {
    t == BlockType::Document || t == BlockType::Heading || t == BlockType::List
        || t == BlockType::ListItem || t == BlockType::SuperBlock || t == BlockType::Blockquote
}

/// Index of the first faulty row, if any.
pub open spec fn first_fault(rows: Seq<BlockRow>) -> Option<int>
    decreases rows.len(),
{
    if rows.len() == 0 {
        None
    } else {
        match first_fault(rows.drop_last()) {
            Some(i) => Some(i),
            None => if row_fault(rows.last()) is Some { Some(rows.len() - 1) } else { None },
        }
    }
}

/// Notebook and hpath of the last document row, if any.
pub open spec fn doc_meta_of(rows: Seq<BlockRow>) -> Option<(Seq<char>, Seq<char>)>
    decreases rows.len(),
{
    if rows.len() == 0 {
        None
    } else if kernel_type_of(rows.last().block_type@) == BlockType::Document {
        Some((rows.last().box_@, rows.last().hpath@))
    } else {
        doc_meta_of(rows.drop_last())
    }
}

/// Ids of the rows whose type orders its children, in row order.
pub open spec fn ordering_ids(rows: Seq<BlockRow>) -> Seq<Seq<char>>
    decreases rows.len(),
{
    if rows.len() == 0 {
        Seq::empty()
    } else {
        ordering_ids(rows.drop_last()) + (if orders_children(kernel_type_of(rows.last().block_type@)) {
            seq![rows.last().id@]
        } else {
            Seq::empty()
        })
    }
}

/// The lifted rows of a document.
#[derive(Debug)]
pub struct LiftedRows {
    pub nodes: Vec<BlockNode>,
    /// Notebook and hpath of the document block.
    pub doc_meta: Option<(NotebookId, String)>,
    /// Blocks whose children the kernel should order.
    pub container_ids: Vec<BlockId>,
}

/// View of an optional notebook and hpath.
pub open spec fn meta_view(m: Option<(NotebookId, String)>) -> Option<(Seq<char>, Seq<char>)> {
    match m {
        Some((nb, h)) => Some((nb@, h@)),
        None => None,
    }
}

proof fn lemma_first_fault_prefix(rows: Seq<BlockRow>, n: int)
    requires
        0 <= n < rows.len(),
        first_fault(rows.take(n)) is None,
    ensures
        first_fault(rows.take(n + 1)) == (if row_fault(rows[n]) is Some { Some(n) } else { None::<int> }),
{
    assert(rows.take(n + 1).drop_last() =~= rows.take(n));
}

proof fn lemma_first_fault_extends(rows: Seq<BlockRow>, n: int)
    requires
        0 <= n < rows.len(),
        first_fault(rows.take(n + 1)) == Some(n),
    ensures
        first_fault(rows) == Some(n),
    decreases rows.len(),
{
    if rows.len() > n + 1 {
        assert(rows.drop_last().take(n + 1) =~= rows.take(n + 1));
        lemma_first_fault_extends(rows.drop_last(), n);
    } else {
        assert(rows.take(n + 1) =~= rows);
    }
}

fn opt_nonempty(s: &String) -> (r: Option<String>)
    ensures
        opt_str(r) == non_empty(s@),
{
    if s.as_str().is_empty() { None } else { Some(s.clone()) }
}

/// Lifts the rows of a document. No rows is `Missing(NotFound(doc_id))`;
/// the first row with an id column that does not parse fails the lift;
/// otherwise every row becomes a node, the last document row gives the
/// notebook and hpath, and the `d/h/l/i/s/b` rows are listed for ordering.
pub fn lift_rows(doc_id: &BlockId, rows: &Vec<BlockRow>) -> (r: Result<LiftedRows, LoadError>)
    ensures
        rows@.len() == 0 ==> (r matches Err(LoadError::Missing(SiyuanError::NotFound(d))) && d@ == doc_id@),
        rows@.len() > 0 ==> (r is Ok <==> first_fault(rows@) is None),
        r matches Err(LoadError::BadId(f, IdError::Invalid(t))) ==> (first_fault(rows@) matches Some(i)
            && 0 <= i < rows@.len() && row_fault(rows@[i]) == Some(f) && t@ == fault_text(rows@[i], f)),
        r matches Err(e) ==> (e is Missing || e is BadId),
        r matches Err(LoadError::Missing(_)) ==> rows@.len() == 0,
        r matches Ok(l) ==> l.nodes@.len() == rows@.len()
            && (forall|i: int| 0 <= i < rows@.len() ==> (#[trigger] l.nodes@[i])@ == row_node(rows@[i]))
            && meta_view(l.doc_meta) == doc_meta_of(rows@)
            && crate::block::id_texts(l.container_ids@) == ordering_ids(rows@),
{
    if rows.len() == 0 {
        return Err(LoadError::Missing(SiyuanError::NotFound(doc_id.to_string())));
    }
    let mut nodes: Vec<BlockNode> = Vec::new();
    let mut doc_meta: Option<(NotebookId, String)> = None;
    let mut container_ids: Vec<BlockId> = Vec::new();
    let mut i: usize = 0;
    assert(rows@.take(0) =~= Seq::<BlockRow>::empty());
    while i < rows.len()
        invariant
            i <= rows@.len(),
            first_fault(rows@.take(i as int)) is None,
            nodes@.len() == i,
            forall|k: int| 0 <= k < i ==> (#[trigger] nodes@[k])@ == row_node(rows@[k]),
            meta_view(doc_meta) == doc_meta_of(rows@.take(i as int)),
            crate::block::id_texts(container_ids@) == ordering_ids(rows@.take(i as int)),
        decreases rows@.len() - i,
    {
        let r = &rows[i];
        let ghost pre = rows@.take(i + 1);
        proof {
            lemma_first_fault_prefix(rows@, i as int);
            assert(pre.drop_last() =~= rows@.take(i as int));
            assert(pre.last() == rows@[i as int]);
        }
        let id = match BlockId::parse(r.id.as_str()) {
            Ok(v) => v,
            Err(e) => {
                proof { lemma_first_fault_extends(rows@, i as int); }
                return Err(LoadError::BadId(IdField::Block, e));
            },
        };
        let root_id = match BlockId::parse(r.root_id.as_str()) {
            Ok(v) => v,
            Err(e) => {
                proof { lemma_first_fault_extends(rows@, i as int); }
                return Err(LoadError::BadId(IdField::Root, e));
            },
        };
        let parent_id = if r.parent_id.as_str().is_empty() {
            None
        } else {
            match BlockId::parse(r.parent_id.as_str()) {
                Ok(v) => Some(v),
                Err(e) => {
                    proof { lemma_first_fault_extends(rows@, i as int); }
                    return Err(LoadError::BadId(IdField::Parent, e));
                },
            }
        };
        let notebook_id = match NotebookId::parse(r.box_.as_str()) {
            Ok(v) => v,
            Err(e) => {
                proof { lemma_first_fault_extends(rows@, i as int); }
                return Err(LoadError::BadId(IdField::Notebook, e));
            },
        };
        let block_type = BlockType::from_kernel(r.block_type.as_str());
        let role = BlockRole::for_block_type(block_type);
        if block_type == BlockType::Document {
            doc_meta = Some((notebook_id.duplicate(), r.hpath.clone()));
        }
        if block_type == BlockType::Document || block_type == BlockType::Heading || block_type == BlockType::List
            || block_type == BlockType::ListItem || block_type == BlockType::SuperBlock
            || block_type == BlockType::Blockquote {
            let ghost before = container_ids@;
            container_ids.push(id.duplicate());
            proof {
                assert(crate::block::id_texts(container_ids@) =~= crate::block::id_texts(before).push(r.id@));
            }
        }
        let ghost nodes_before = nodes@;
        nodes.push(BlockNode {
            id,
            root_id,
            parent_id,
            notebook_id,
            block_type,
            subtype: opt_nonempty(&r.subtype),
            role,
            markdown: r.markdown.clone(),
            kramdown: None,
            ial: opt_nonempty(&r.ial),
            attrs: std::collections::BTreeMap::new(),
            hash: opt_nonempty(&r.hash),
            created: opt_nonempty(&r.created),
            updated: opt_nonempty(&r.updated),
            sort: Some(r.sort),
            structural_children: Vec::new(),
            section_children: Vec::new(),
        });
        proof {
            assert(crate::block::id_texts(nodes@[i as int].structural_children@) =~= Seq::<Seq<char>>::empty());
            assert(crate::block::id_texts(nodes@[i as int].section_children@) =~= Seq::<Seq<char>>::empty());
            assert forall|k: int| 0 <= k < i + 1 implies (#[trigger] nodes@[k])@ == row_node(rows@[k]) by {
                if k < i {
                    assert(nodes@[k] == nodes_before[k]);
                }
            }
        }
        i = i + 1;
    }
    assert(rows@.take(rows@.len() as int) =~= rows@);
    Ok(LiftedRows { nodes, doc_meta, container_ids })
}

/// Records the kernel's child order of a container; an empty list is not
/// recorded, so that block falls back to row order.
pub fn record_child_order(map: &mut Vec<ChildOrder>, parent: &BlockId, kids: Vec<String>)
    ensures
        kids@.len() == 0 ==> final(map)@ == old(map)@,
        kids@.len() > 0 ==> final(map)@.len() == old(map)@.len() + 1
            && final(map)@.drop_last() == old(map)@
            && final(map)@.last().parent@ == parent@
            && strs(final(map)@.last().kids@) == strs(kids@),
{
    if kids.len() > 0 {
        let ghost before = map@;
        let ghost kv = strs(kids@);
        map.push(ChildOrder { parent: parent.to_string(), kids });
        assert(map@.drop_last() =~= before);
    }
}

/// The nodes in document order.
pub open spec fn doc_order(ns: Seq<BlockNodeView>, cm: Seq<ChildOrder>, doc: Seq<char>) -> Seq<BlockNodeView> {
    dfs_indices(ns, cm, doc).map_values(|i: int| ns[i])
}

/// Every heading with its section filled in.
pub open spec fn with_sections(bs: Seq<BlockNodeView>) -> Seq<BlockNodeView> {
    Seq::new(
        bs.len(),
        |k: int| BlockNodeView {
            section_children: if is_heading(bs[k]) { section_of(bs, k) } else { bs[k].section_children },
            ..bs[k]
        },
    )
}

/// The blocks of a document as a bundle lists them: in document order,
/// with structural children and sections filled in.
pub open spec fn annotated_blocks(ns: Seq<BlockNodeView>, cm: Seq<ChildOrder>, doc: Seq<char>) -> Seq<BlockNodeView> {
    with_sections(with_structure(doc_order(ns, cm, doc)))
}

/// Orders the nodes of a document and fills in structural children and
/// heading sections.
pub fn order_and_annotate(nodes: Vec<BlockNode>, children_map: &Vec<ChildOrder>, doc_id: &BlockId) -> (r: Vec<BlockNode>)
    ensures
        views(r@) == annotated_blocks(views(nodes@), children_map@, doc_id@),
        r@.len() == nodes@.len(),
{
    let ghost ns = views(nodes@);
    proof {
        lemma_dfs_permutation(ns, children_map@, doc_id@);
    }
    let mut v = dfs_order(nodes, children_map, doc_id);
    let ghost ord = doc_order(ns, children_map@, doc_id@);
    assert(views(v@) =~= ord);
    populate_structural_children(&mut v);
    let ghost st = with_structure(ord);
    assert(views(v@) =~= st);
    populate_section_children(&mut v);
    assert(views(v@) =~= with_sections(st));
    v
}

/// `true` when `b` is the bundle of the given page of the document `doc`
/// whose annotated blocks are `blocks`, from notebook `nb` at `hpath`.
pub open spec fn bundle_of(doc: Seq<char>, nb: Seq<char>, hpath: Seq<char>, blocks: Seq<BlockNodeView>, req: PageRequest, b: DocBundle) -> bool {
    let size = eff_page_size(req.page_size as nat);
    let pages = page_count(blocks.len(), size);
    let p = served_page(req.page as nat, pages);
    &&& b.schema@ == "siyuan-agent.doc-bundle.v1"@
    &&& b.doc.id@ == doc
    &&& b.doc.notebook_id@ == nb
    &&& b.doc.hpath@ == hpath
    &&& b.doc.title@ == title_of(hpath)
    &&& b.page.page as nat == p
    &&& b.page.page_size as nat == size
    &&& b.page.total_blocks as nat == blocks.len()
    &&& b.page.total_pages as nat == pages
    &&& views(b.blocks@) == blocks.subrange(page_start(p, size) as int, page_end(p, size, blocks.len()) as int)
}

/// Builds the bundle of a page of a loaded document: its nodes in document
/// order with structural children and sections, sliced to the requested
/// page. Without a document block there is no bundle.
pub fn assemble_bundle(
    doc_id: &BlockId,
    nodes: Vec<BlockNode>,
    children_map: &Vec<ChildOrder>,
    doc_meta: Option<(NotebookId, String)>,
    page: PageRequest,
) -> (r: Result<DocBundle, LoadError>)
    ensures
        doc_meta is None <==> r is Err,
        r matches Err(e) ==> e is NoDocumentBlock,
        r matches Ok(b) ==> (doc_meta matches Some((nb, h)) && bundle_of(
            doc_id@,
            nb@,
            h@,
            annotated_blocks(views(nodes@), children_map@, doc_id@),
            page,
            b,
        )),
{
    let ghost all = annotated_blocks(views(nodes@), children_map@, doc_id@);
    let v = order_and_annotate(nodes, children_map, doc_id);
    let outcome = paginate(v.as_slice(), page);
    let (notebook_id, hpath) = match doc_meta {
        Some(m) => m,
        None => return Err(LoadError::NoDocumentBlock),
    };
    let title = title_from_hpath(hpath.as_str());
    let ghost start = page_start(outcome.page as nat, outcome.page_size as nat);
    proof {
        assert forall|j: int| 0 <= j < outcome.items@.len() implies (#[trigger] views(outcome.items@)[j]) == all[start + j] by {
            assert(views(v@)[start + j] == v@[start + j]@);
        }
        assert(views(outcome.items@) =~= all.subrange(
            start as int,
            page_end(outcome.page as nat, outcome.page_size as nat, all.len()) as int,
        ));
    }
    Ok(DocBundle {
        schema: owned("siyuan-agent.doc-bundle.v1"),
        doc: DocMeta { id: doc_id.duplicate(), notebook_id, hpath, title },
        page: PageInfo {
            page: outcome.page,
            page_size: outcome.page_size,
            total_blocks: outcome.total,
            total_pages: outcome.total_pages,
        },
        blocks: outcome.items,
    })
}

/// The blocks the rows describe, in row order.
pub open spec fn row_nodes(rows: Seq<BlockRow>) -> Seq<BlockNodeView> {
    rows.map_values(|r: BlockRow| row_node(r))
}

/// Loads one page of a document from the kernel's replies: the rows of the
/// document's blocks and the child orders recorded for its containers. No
/// rows means the document does not exist; a row with a malformed id is
/// refused as [`lift_rows`] says; rows without the document block are
/// refused; otherwise the page is [`bundle_of`] the blocks in document
/// order.
pub fn bundle_from_replies(
    doc_id: &BlockId,
    rows: &Vec<BlockRow>,
    children_map: &Vec<ChildOrder>,
    page: PageRequest,
) -> (r: Result<DocBundle, LoadError>)
    ensures
        rows@.len() == 0 ==> (r matches Err(LoadError::Missing(SiyuanError::NotFound(d))) && d@ == doc_id@),
        rows@.len() > 0 && first_fault(rows@) is Some ==> (r matches Err(LoadError::BadId(f, IdError::Invalid(t)))
            && row_fault(rows@[first_fault(rows@).unwrap()]) == Some(f)
            && t@ == fault_text(rows@[first_fault(rows@).unwrap()], f)),
        rows@.len() > 0 && first_fault(rows@) is None && doc_meta_of(rows@) is None ==> (r matches Err(e) && e is NoDocumentBlock),
        rows@.len() > 0 && first_fault(rows@) is None ==> match doc_meta_of(rows@) {
            Some((nb, h)) => r matches Ok(b) && bundle_of(
                doc_id@,
                nb,
                h,
                annotated_blocks(row_nodes(rows@), children_map@, doc_id@),
                page,
                b,
            ),
            None => r is Err,
        },
{
    let lifted = match lift_rows(doc_id, rows) {
        Ok(l) => l,
        Err(e) => return Err(e),
    };
    proof {
        assert(views(lifted.nodes@) =~= row_nodes(rows@)) by {
            assert forall|i: int| 0 <= i < rows@.len() implies views(lifted.nodes@)[i] == row_nodes(rows@)[i] by {
                assert(lifted.nodes@[i]@ == row_node(rows@[i]));
            }
        }
    }
    assemble_bundle(doc_id, lifted.nodes, children_map, lifted.doc_meta, page)
}

} // verus!
