//! Agent-markdown rendering of an assembled doc tree: an indented bullet
//! list with one `<!-- sy:doc ... -->` marker per node and a trailing
//! `<!-- sy:tree depth=... total_loaded=... truncated=... -->` summary.

use vstd::prelude::*;

use crate::doc_tree::{
    forest_depth, lemma_depth_child, lemma_tviews_index, lemma_tviews_len, tree_depth, tviews, Depth,
    TreeNode, TreeView,
};
use crate::text::{occurs_at, debug_str, debug_str_text, dec_digits, dec_i64, dec_int, dec_u64, has_prefix, has_suffix, push_str};

verus! {

/// Two spaces per level.
pub open spec fn indent(level: nat) -> Seq<char>
    decreases level,
{
    if level == 0 {
        Seq::empty()
    } else {
        indent((level - 1) as nat) + "  "@
    }
}

/// The plural suffix of "subdoc".
pub open spec fn plural_s(n: nat) -> Seq<char> {
    if n == 1 { ""@ } else { "s"@ }
}

/// The marker line of a node.
pub open spec fn marker_line(t: TreeView, level: nat) -> Seq<char> {
    indent(level) + "<!-- sy:doc id="@ + t.id + " hpath="@ + t.hpath + " title="@
        + debug_str_text(t.title) + " sort="@ + dec_int(t.sort as int) + " -->\n"@
}

/// `true` when the node has children that were not loaded.
pub open spec fn cut_below(t: TreeView) -> bool {
    t.has_children && t.children.len() == 0
}

/// The one-line summary of a node.
pub open spec fn summary_line(t: TreeView, level: nat) -> Seq<char> {
    indent(level) + "- "@ + t.hpath + " ("@ + dec_digits(t.doc_count_recursive) + " subdoc"@
        + plural_s(t.doc_count_recursive) + ")"@
        + (if cut_below(t) { " (truncated)"@ } else { ""@ }) + "\n"@
}

/// The lines of a node and, one level deeper, of its loaded children.
pub open spec fn node_text(t: TreeView, level: nat) -> Seq<char>
    decreases t,
{
    marker_line(t, level) + summary_line(t, level) + nodes_text(t.children, level + 1)
}

/// The lines of a list of sibling nodes.
pub open spec fn nodes_text(cs: Seq<TreeView>, level: nat) -> Seq<char>
    decreases cs,
{
    if cs.len() == 0 {
        Seq::empty()
    } else {
        nodes_text(cs.drop_last(), level) + node_text(cs.last(), level)
    }
}

/// Number of rendered nodes: every loaded node with a non-empty id.
pub open spec fn rendered_count(t: TreeView) -> nat
    decreases t,
{
    (if t.id.len() == 0 { 0nat } else { 1nat }) + rendered_counts(t.children)
}

/// Rendered nodes of a list of siblings.
pub open spec fn rendered_counts(cs: Seq<TreeView>) -> nat
    decreases cs,
{
    if cs.len() == 0 {
        0
    } else {
        rendered_counts(cs.drop_last()) + rendered_count(cs.last())
    }
}

/// `true` when some loaded node with an id has children that were not loaded.
pub open spec fn truncated_at(t: TreeView) -> bool
    decreases t,
{
    (cut_below(t) && t.id.len() != 0) || any_truncated(t.children)
}

/// `true` when some sibling, or a node below it, is truncated.
pub open spec fn any_truncated(cs: Seq<TreeView>) -> bool
    decreases cs,
{
    cs.len() > 0 && (any_truncated(cs.drop_last()) || truncated_at(cs.last()))
}

/// The depth label of the summary line.
pub open spec fn depth_label(d: Depth) -> Seq<char> {
    match d {
        Depth::All => "all"@,
        Depth::N(n) => dec_digits(n as nat),
    }
}

/// The truncation label of the summary line.
pub open spec fn truncated_label(truncated: bool, d: Depth) -> Seq<char> {
    if truncated {
        match d {
            Depth::N(n) => "true (depth limit: "@ + dec_digits(n as nat)
                + ", use --depth all to see full tree)"@,
            Depth::All => "true (node limit reached)"@,
        }
    } else {
        "false"@
    }
}

/// The whole rendering: the nodes (the children only, for a virtual root
/// with empty id) followed by the summary line.
pub open spec fn tree_md(t: TreeView, d: Depth) -> Seq<char> {
    (if t.id.len() == 0 { nodes_text(t.children, 0) } else { node_text(t, 0) })
        + "<!-- sy:tree depth="@ + depth_label(d) + " total_loaded="@
        + dec_digits(rendered_count(t)) + " truncated="@
        + truncated_label(truncated_at(t), d) + " -->\n"@
}

proof fn lemma_counts_prefix(cs: Seq<TreeView>, i: int)
    requires
        0 <= i <= cs.len(),
    ensures
        rendered_counts(cs.take(i)) <= rendered_counts(cs),
    decreases cs.len(),
{
    if i < cs.len() {
        assert(cs.drop_last().take(i) =~= cs.take(i));
        lemma_counts_prefix(cs.drop_last(), i);
    } else {
        assert(cs.take(i) =~= cs);
    }
}

/// Rendered nodes of the loaded slice of `node`.
fn count_rendered(node: &TreeNode) -> (r: u64)
    requires
        rendered_count(node@) <= u64::MAX,
    ensures
        r == rendered_count(node@),
    decreases node,
{
    let ghost cv = node@.children;
    let mut n: u64 = if node.id.as_str().is_empty() { 0 } else { 1 };
    proof {
        lemma_tviews_len(node.children@);
    }
    let mut i: usize = 0;
    assert(cv.take(0) =~= Seq::<TreeView>::empty());
    while i < node.children.len()
        invariant
            cv == tviews(node.children@),
            cv.len() == node.children@.len(),
            i <= cv.len(),
            rendered_count(node@) <= u64::MAX,
            rendered_count(node@) == (if node@.id.len() == 0 { 0nat } else { 1nat }) + rendered_counts(cv),
            n == (if node@.id.len() == 0 { 0nat } else { 1nat }) + rendered_counts(cv.take(i as int)),
        decreases cv.len() - i,
    {
        proof {
            lemma_tviews_index(node.children@, i as int);
            assert(cv.take(i + 1).drop_last() =~= cv.take(i as int));
            assert(cv.take(i + 1).last() == cv[i as int]);
            lemma_counts_prefix(cv, i + 1);
            assert(decreases_to!(node => node.children));
        }
        let c = count_rendered(&node.children[i]);
        n = n + c;
        i = i + 1;
    }
    assert(cv.take(cv.len() as int) =~= cv);
    n
}

/// `true` when some rendered node was cut off by the depth budget.
fn is_truncated(node: &TreeNode) -> (r: bool)
    ensures
        r == truncated_at(node@),
    decreases node,
{
    let ghost cv = node@.children;
    proof {
        lemma_tviews_len(node.children@);
    }
    if node.has_children && node.children.len() == 0 && !node.id.as_str().is_empty() {
        return true;
    }
    let mut i: usize = 0;
    assert(cv.take(0) =~= Seq::<TreeView>::empty());
    while i < node.children.len()
        invariant
            cv == tviews(node.children@),
            cv.len() == node.children@.len(),
            i <= cv.len(),
            !any_truncated(cv.take(i as int)),
        decreases cv.len() - i,
    {
        proof {
            lemma_tviews_index(node.children@, i as int);
            assert(cv.take(i + 1).drop_last() =~= cv.take(i as int));
            assert(cv.take(i + 1).last() == cv[i as int]);
        }
        if is_truncated(&node.children[i]) {
            proof {
                lemma_any_truncated_prefix(cv, i + 1);
            }
            return true;
        }
        i = i + 1;
    }
    assert(cv.take(cv.len() as int) =~= cv);
    false
}

proof fn lemma_any_truncated_prefix(cs: Seq<TreeView>, i: int)
    requires
        0 <= i <= cs.len(),
        any_truncated(cs.take(i)),
    ensures
        any_truncated(cs),
    decreases cs.len(),
{
    if i < cs.len() {
        assert(cs.drop_last().take(i) =~= cs.take(i));
        lemma_any_truncated_prefix(cs.drop_last(), i);
    } else {
        assert(cs.take(i) =~= cs);
    }
}

/// Two spaces per level.
fn indent_str(level: usize) -> (r: String)
    ensures
        r@ == indent(level as nat),
{
    let mut s = String::new();
    let mut i: usize = 0;
    while i < level
        invariant
            i <= level,
            s@ == indent(i as nat),
        decreases level - i,
    {
        push_str(&mut s, "  ");
        i = i + 1;
    }
    s
}

/// Appends the lines of `node` at `level`.
fn render_node(node: &TreeNode, level: usize, buf: &mut String)
    requires
        level + tree_depth(node@) < usize::MAX,
    ensures
        final(buf)@ == old(buf)@ + node_text(node@, level as nat),
    decreases node,
{
    let ghost t = node@;
    let ind = indent_str(level);
    let mut line = String::new();
    push_str(&mut line, ind.as_str());
    push_str(&mut line, "<!-- sy:doc id=");
    push_str(&mut line, node.id.as_str());
    push_str(&mut line, " hpath=");
    push_str(&mut line, node.hpath.as_str());
    push_str(&mut line, " title=");
    let title = debug_str(node.title.as_str());
    push_str(&mut line, title.as_str());
    push_str(&mut line, " sort=");
    let sort = dec_i64(node.sort);
    push_str(&mut line, sort.as_str());
    push_str(&mut line, " -->\n");
    assert(line@ =~= marker_line(t, level as nat));

    let mut sum = String::new();
    push_str(&mut sum, ind.as_str());
    push_str(&mut sum, "- ");
    push_str(&mut sum, node.hpath.as_str());
    push_str(&mut sum, " (");
    let count = dec_u64(node.doc_count_recursive);
    push_str(&mut sum, count.as_str());
    push_str(&mut sum, " subdoc");
    if node.doc_count_recursive == 1 {
        push_str(&mut sum, "");
    } else {
        push_str(&mut sum, "s");
    }
    push_str(&mut sum, ")");
    proof {
        lemma_tviews_len(node.children@);
    }
    if node.has_children && node.children.len() == 0 {
        push_str(&mut sum, " (truncated)");
    } else {
        push_str(&mut sum, "");
    }
    push_str(&mut sum, "\n");
    assert(sum@ =~= summary_line(t, level as nat));

    let ghost start = old(buf)@;
    push_str(buf, line.as_str());
    push_str(buf, sum.as_str());
    assert(buf@ =~= start + (marker_line(t, level as nat) + summary_line(t, level as nat)));

    let ghost cv = t.children;
    let ghost head = buf@;
    let mut i: usize = 0;
    assert(cv.take(0) =~= Seq::<TreeView>::empty());
    assert(head + nodes_text(cv.take(0), (level + 1) as nat) =~= head);
    while i < node.children.len()
        invariant
            t == node@,
            cv == t.children,
            cv == tviews(node.children@),
            cv.len() == node.children@.len(),
            level + tree_depth(t) < usize::MAX,
            tree_depth(t) == forest_depth(cv),
            i <= cv.len(),
            buf@ == head + nodes_text(cv.take(i as int), (level + 1) as nat),
        decreases cv.len() - i,
    {
        proof {
            lemma_tviews_index(node.children@, i as int);
            lemma_depth_child(cv, i as int);
            assert(cv.take(i + 1).drop_last() =~= cv.take(i as int));
            assert(cv.take(i + 1).last() == cv[i as int]);
        }
        let ghost mid = buf@;
        render_node(&node.children[i], level + 1, buf);
        proof {
            assert(buf@ =~= head + nodes_text(cv.take(i + 1), (level + 1) as nat));
        }
        i = i + 1;
    }
    assert(cv.take(cv.len() as int) =~= cv);
    assert(buf@ =~= start + node_text(t, level as nat));
}


/// Rendered nodes of the loaded slice of `node`, or `None` past `u64::MAX`.
fn count_checked(node: &TreeNode) -> (r: Option<u64>)
    ensures
        match r {
            Some(c) => c == rendered_count(node@),
            None => rendered_count(node@) > u64::MAX,
        },
    decreases node,
{
    let ghost cv = node@.children;
    let mut n: u64 = if node.id.as_str().is_empty() { 0 } else { 1 };
    proof {
        lemma_tviews_len(node.children@);
    }
    let mut i: usize = 0;
    assert(cv.take(0) =~= Seq::<TreeView>::empty());
    while i < node.children.len()
        invariant
            cv == tviews(node.children@),
            cv.len() == node.children@.len(),
            i <= cv.len(),
            rendered_count(node@) == (if node@.id.len() == 0 { 0nat } else { 1nat }) + rendered_counts(cv),
            n == (if node@.id.len() == 0 { 0nat } else { 1nat }) + rendered_counts(cv.take(i as int)),
        decreases cv.len() - i,
    {
        proof {
            lemma_tviews_index(node.children@, i as int);
            assert(cv.take(i + 1).drop_last() =~= cv.take(i as int));
            assert(cv.take(i + 1).last() == cv[i as int]);
            lemma_counts_prefix(cv, i + 1);
        }
        match count_checked(&node.children[i]) {
            Some(c) => {
                match n.checked_add(c) {
                    Some(m) => n = m,
                    None => return None,
                }
            },
            None => return None,
        }
        i = i + 1;
    }
    assert(cv.take(cv.len() as int) =~= cv);
    Some(n)
}

/// Loaded levels below `node`, or `None` from `usize::MAX` on.
fn depth_checked(node: &TreeNode) -> (r: Option<usize>)
    ensures
        match r {
            Some(d) => d == tree_depth(node@),
            None => tree_depth(node@) >= usize::MAX,
        },
    decreases node,
{
    let ghost cv = node@.children;
    proof {
        lemma_tviews_len(node.children@);
    }
    let mut d: usize = 0;
    let mut i: usize = 0;
    assert(cv.take(0) =~= Seq::<TreeView>::empty());
    while i < node.children.len()
        invariant
            cv == tviews(node.children@),
            cv.len() == node.children@.len(),
            i <= cv.len(),
            tree_depth(node@) == forest_depth(cv),
            d == forest_depth(cv.take(i as int)),
        decreases cv.len() - i,
    {
        proof {
            lemma_tviews_index(node.children@, i as int);
            assert(cv.take(i + 1).drop_last() =~= cv.take(i as int));
            assert(cv.take(i + 1).last() == cv[i as int]);
            lemma_forest_depth_prefix(cv, i + 1);
        }
        match depth_checked(&node.children[i]) {
            Some(c) => {
                if c >= usize::MAX - 1 {
                    return None;
                }
                if c + 1 > d {
                    d = c + 1;
                }
            },
            None => return None,
        }
        i = i + 1;
    }
    assert(cv.take(cv.len() as int) =~= cv);
    Some(d)
}

proof fn lemma_forest_depth_prefix(cs: Seq<TreeView>, i: int)
    requires
        0 <= i <= cs.len(),
    ensures
        forest_depth(cs.take(i)) <= forest_depth(cs),
    decreases cs.len(),
{
    if i < cs.len() {
        assert(cs.drop_last().take(i) =~= cs.take(i));
        lemma_forest_depth_prefix(cs.drop_last(), i);
    } else {
        assert(cs.take(i) =~= cs);
    }
}

/// `true` when a tree can be rendered: its rendered-node count fits in a
/// `u64` and its depth leaves room for the indentation levels.
pub fn render_fits(root: &TreeNode) -> (r: bool)
    ensures
        r == (rendered_count(root@) <= u64::MAX && tree_depth(root@) < usize::MAX - 1),
{
    let c = count_checked(root);
    let d = depth_checked(root);
    match (c, d) {
        (Some(_), Some(k)) => k < usize::MAX - 1,
        _ => false,
    }
}

/// Renders a tree as agent-markdown: one marker line and one summary line
/// per loaded node, indented two spaces per level (a virtual root with empty
/// id contributes only its children), then a summary comment with the depth
/// label, the number of rendered nodes and whether the depth budget cut off
/// any of them.
pub fn render_agent_md(root: &TreeNode, depth: Depth) -> (r: String)
    requires
        rendered_count(root@) <= u64::MAX,
        tree_depth(root@) < usize::MAX - 1,
    ensures
        r@ == tree_md(root@, depth),
{
    let ghost t = root@;
    let mut buf = String::new();
    let total_loaded = count_rendered(root);
    let truncated = is_truncated(root);
    proof {
        lemma_tviews_len(root.children@);
    }
    if root.id.as_str().is_empty() {
        let ghost cv = t.children;
        let mut i: usize = 0;
        assert(cv.take(0) =~= Seq::<TreeView>::empty());
        while i < root.children.len()
            invariant
                t == root@,
                cv == t.children,
                cv == tviews(root.children@),
                cv.len() == root.children@.len(),
                tree_depth(t) < usize::MAX - 1,
                tree_depth(t) == forest_depth(cv),
                i <= cv.len(),
                buf@ == nodes_text(cv.take(i as int), 0),
            decreases cv.len() - i,
        {
            proof {
                lemma_tviews_index(root.children@, i as int);
                lemma_depth_child(cv, i as int);
                assert(cv.take(i + 1).drop_last() =~= cv.take(i as int));
                assert(cv.take(i + 1).last() == cv[i as int]);
            }
            render_node(&root.children[i], 0, &mut buf);
            i = i + 1;
        }
        assert(cv.take(cv.len() as int) =~= cv);
    } else {
        render_node(root, 0, &mut buf);
        assert(buf@ =~= node_text(t, 0));
    }
    let ghost body = buf@;
    let label = match depth {
        Depth::All => String::from_str("all"),
        Depth::N(n) => dec_u64(n as u64),
    };
    let trunc = if truncated {
        match depth {
            Depth::N(n) => {
                let mut s = String::from_str("true (depth limit: ");
                let d = dec_u64(n as u64);
                push_str(&mut s, d.as_str());
                push_str(&mut s, ", use --depth all to see full tree)");
                s
            },
            Depth::All => String::from_str("true (node limit reached)"),
        }
    } else {
        String::from_str("false")
    };
    assert(label@ == depth_label(depth));
    assert(trunc@ =~= truncated_label(truncated, depth));
    push_str(&mut buf, "<!-- sy:tree depth=");
    push_str(&mut buf, label.as_str());
    push_str(&mut buf, " total_loaded=");
    let tl = dec_u64(total_loaded);
    push_str(&mut buf, tl.as_str());
    push_str(&mut buf, " truncated=");
    push_str(&mut buf, trunc.as_str());
    push_str(&mut buf, " -->\n");
    assert(buf@ =~= tree_md(t, depth));
    buf
}

/// The closing line of a rendering.
pub open spec fn tree_trailer(d: Depth, loaded: nat, truncated: bool) -> Seq<char> {
    "<!-- sy:tree depth="@ + depth_label(d) + " total_loaded="@ + dec_digits(loaded) + " truncated="@
        + truncated_label(truncated, d) + " -->\n"@
}

/// A rendering ends with its closing line, which names the depth, counts
/// the loaded nodes that carry an id, and says `false` exactly when no such
/// node has children left unloaded (otherwise a text starting `true`).
pub proof fn lemma_tree_md_trailer(t: TreeView, d: Depth)
    ensures
        has_suffix(tree_md(t, d), tree_trailer(d, rendered_count(t), truncated_at(t))),
        truncated_at(t) ==> has_prefix(truncated_label(truncated_at(t), d), "true"@),
        !truncated_at(t) ==> truncated_label(truncated_at(t), d) == "false"@,
{
    let body = if t.id.len() == 0 { nodes_text(t.children, 0) } else { node_text(t, 0) };
    let tr = tree_trailer(d, rendered_count(t), truncated_at(t));
    assert(tree_md(t, d) =~= body + tr);
    assert((body + tr).subrange(body.len() as int, (body + tr).len() as int) =~= tr);
    reveal_strlit("true");
    reveal_strlit("true (depth limit: ");
    reveal_strlit("true (node limit reached)");
    if truncated_at(t) {
        match d {
            Depth::N(n) => {
                let l = "true (depth limit: "@ + dec_digits(n as nat) + ", use --depth all to see full tree)"@;
                assert(l.subrange(0, 4) =~= "true"@);
            },
            Depth::All => {
                assert("true (node limit reached)"@.subrange(0, 4) =~= "true"@);
            },
        }
    }
}

/// The node reached from `t` by following child positions `p`, one per
/// level; `None` when a position is out of range.
pub open spec fn node_at(t: TreeView, p: Seq<int>) -> Option<TreeView>
    decreases p.len(),
{
    if p.len() == 0 {
        Some(t)
    } else if 0 <= p[0] < t.children.len() {
        node_at(t.children[p[0]], p.drop_first())
    } else {
        None
    }
}

/// The node at `p` carries an id, has children, and none of them was
/// loaded.
pub open spec fn cut_node_at(t: TreeView, p: Seq<int>) -> bool {
    match node_at(t, p) {
        Some(n) => n.id.len() > 0 && n.has_children && n.children.len() == 0,
        None => false,
    }
}

proof fn lemma_any_truncated_member(cs: Seq<TreeView>)
    ensures
        any_truncated(cs) <==> exists|i: int| 0 <= i < cs.len() && #[trigger] truncated_at(cs[i]),
    decreases cs.len(),
{
    if cs.len() > 0 {
        lemma_any_truncated_member(cs.drop_last());
        if any_truncated(cs.drop_last()) {
            let i = choose|i: int| 0 <= i < cs.drop_last().len() && #[trigger] truncated_at(cs.drop_last()[i]);
            assert(cs[i] == cs.drop_last()[i]);
        }
        if exists|i: int| 0 <= i < cs.len() && #[trigger] truncated_at(cs[i]) {
            let i = choose|i: int| 0 <= i < cs.len() && #[trigger] truncated_at(cs[i]);
            if i < cs.len() - 1 {
                assert(cs.drop_last()[i] == cs[i]);
            } else {
                assert(cs[i] == cs.last());
            }
        }
        if truncated_at(cs.last()) {
            assert(truncated_at(cs[cs.len() - 1]));
        }
    }
}

proof fn lemma_truncated_paths(t: TreeView)
    ensures
        truncated_at(t) <==> exists|p: Seq<int>| #[trigger] cut_node_at(t, p),
    decreases t,
{
    lemma_any_truncated_member(t.children);
    if truncated_at(t) {
        if t.id.len() != 0 && t.has_children && t.children.len() == 0 {
            assert(cut_node_at(t, Seq::<int>::empty()));
        } else {
            let i = choose|i: int| 0 <= i < t.children.len() && #[trigger] truncated_at(t.children[i]);
            assert(decreases_to!(t => t.children[i]));
            lemma_truncated_paths(t.children[i]);
            let q = choose|q: Seq<int>| #[trigger] cut_node_at(t.children[i], q);
            let p = seq![i] + q;
            assert(p.drop_first() =~= q);
            assert(node_at(t, p) == node_at(t.children[i], q));
            assert(cut_node_at(t, p));
        }
    }
    if exists|p: Seq<int>| #[trigger] cut_node_at(t, p) {
        let p = choose|p: Seq<int>| #[trigger] cut_node_at(t, p);
        if p.len() > 0 {
            let i = p[0];
            assert(0 <= i < t.children.len());
            assert(decreases_to!(t => t.children[i]));
            lemma_truncated_paths(t.children[i]);
            assert(node_at(t, p) == node_at(t.children[i], p.drop_first()));
            assert(cut_node_at(t.children[i], p.drop_first()));
            assert(truncated_at(t.children[i]));
        }
    }
}

/// The closing line says the tree was cut exactly when some node of the
/// loaded tree, at any depth, carries an id, has children, and had none of
/// them loaded (the nodes whose summary line ends ` (truncated)`); it then
/// says `true ...`, and otherwise `false`.
pub proof fn lemma_trailer_flags_cut_nodes(t: TreeView, d: Depth)
    ensures
        has_suffix(tree_md(t, d), tree_trailer(d, rendered_count(t), exists|p: Seq<int>| #[trigger] cut_node_at(t, p))),
        (exists|p: Seq<int>| #[trigger] cut_node_at(t, p))
            ==> has_prefix(truncated_label(exists|p: Seq<int>| #[trigger] cut_node_at(t, p), d), "true"@),
        !(exists|p: Seq<int>| #[trigger] cut_node_at(t, p))
            ==> truncated_label(exists|p: Seq<int>| #[trigger] cut_node_at(t, p), d) == "false"@,
{
    lemma_truncated_paths(t);
    lemma_tree_md_trailer(t, d);
}

// ---------------------------------------------------------------------------
// Document markers in a rendering
// ---------------------------------------------------------------------------

/// The text that opens each document's marker line.
pub open spec fn doc_marker() -> Seq<char> {
    seq!['<', '!', '-', '-', ' ', 's', 'y', ':', 'd', 'o', 'c', ' ']
}

/// Number of positions below `n` where `p` occurs in `s`.
pub open spec fn count_upto(s: Seq<char>, p: Seq<char>, n: int) -> nat
    decreases n,
{
    if n <= 0 {
        0
    } else {
        count_upto(s, p, n - 1) + (if occurs_at(s, p, n - 1) { 1nat } else { 0nat })
    }
}

/// Number of places where `p` occurs in `s`.
pub open spec fn occurrences(s: Seq<char>, p: Seq<char>) -> nat {
    count_upto(s, p, s.len() as int)
}

/// No `<` in `s`.
pub open spec fn no_lt(s: Seq<char>) -> bool {
    forall|i: int| 0 <= i < s.len() ==> s[i] != '<'
}

/// Every `<` of `s` has a whole marker's length of text after it.
pub open spec fn closed(s: Seq<char>) -> bool {
    forall|i: int| 0 <= i < s.len() && s[i] == '<' ==> i + doc_marker().len() <= s.len()
}

proof fn lemma_count_same(a: Seq<char>, b: Seq<char>, p: Seq<char>, n: int)
    requires
        0 <= n <= a.len(),
        forall|i: int| 0 <= i < n ==> occurs_at(a, p, i) == occurs_at(b, p, i),
    ensures
        count_upto(a, p, n) == count_upto(b, p, n),
    decreases n,
{
    if n > 0 {
        lemma_count_same(a, b, p, n - 1);
    }
}

proof fn lemma_count_shift(a: Seq<char>, b: Seq<char>, p: Seq<char>, m: int)
    requires
        0 <= m <= b.len(),
    ensures
        count_upto(a + b, p, a.len() + m) == count_upto(a + b, p, a.len() as int) + count_upto(b, p, m),
    decreases m,
{
    if m > 0 {
        lemma_count_shift(a, b, p, m - 1);
        let j = m - 1;
        let s = a + b;
        if occurs_at(s, p, a.len() + j) {
            assert(s.subrange(a.len() + j, a.len() + j + p.len()) =~= b.subrange(j, j + p.len()));
        }
        if occurs_at(b, p, j) {
            assert(s.subrange(a.len() + j, a.len() + j + p.len()) =~= b.subrange(j, j + p.len()));
        }
    }
}

/// Counting markers is additive over a closed left part.
proof fn lemma_occ_concat(a: Seq<char>, b: Seq<char>)
    requires
        closed(a),
    ensures
        occurrences(a + b, doc_marker()) == occurrences(a, doc_marker()) + occurrences(b, doc_marker()),
{
    let p = doc_marker();
    let s = a + b;
    assert forall|i: int| 0 <= i < a.len() implies occurs_at(s, p, i) == occurs_at(a, p, i) by {
        if occurs_at(s, p, i) {
            assert(s.subrange(i, i + p.len())[0] == p[0]);
            assert(s[i] == '<');
            assert(a[i] == '<');
            assert(s.subrange(i, i + p.len()) =~= a.subrange(i, i + p.len()));
        }
        if occurs_at(a, p, i) {
            assert(a.subrange(i, i + p.len())[0] == p[0]);
            assert(s.subrange(i, i + p.len()) =~= a.subrange(i, i + p.len()));
        }
    }
    lemma_count_same(s, a, p, a.len() as int);
    lemma_count_shift(a, b, p, b.len() as int);
}

proof fn lemma_closed_concat(a: Seq<char>, b: Seq<char>)
    requires
        closed(a),
        closed(b),
    ensures
        closed(a + b),
{
    assert forall|i: int| 0 <= i < (a + b).len() && (a + b)[i] == '<' implies i + doc_marker().len() <= (a + b).len() by {
        if i >= a.len() {
            assert(b[i - a.len()] == '<');
        }
    }
}

proof fn lemma_no_lt_text(s: Seq<char>)
    requires
        no_lt(s),
    ensures
        closed(s),
        occurrences(s, doc_marker()) == 0,
{
    lemma_no_lt_count(s, s.len() as int);
}

proof fn lemma_no_lt_count(s: Seq<char>, n: int)
    requires
        no_lt(s),
        n <= s.len(),
    ensures
        count_upto(s, doc_marker(), n) == 0,
    decreases n,
{
    if n > 0 {
        lemma_no_lt_count(s, n - 1);
        if occurs_at(s, doc_marker(), n - 1) {
            assert(s.subrange(n - 1, n - 1 + doc_marker().len())[0] == '<');
        }
    }
}

proof fn lemma_no_lt_concat(a: Seq<char>, b: Seq<char>)
    requires
        no_lt(a),
        no_lt(b),
    ensures
        no_lt(a + b),
{
    assert forall|i: int| 0 <= i < (a + b).len() implies (a + b)[i] != '<' by {
        if i >= a.len() {
            assert((a + b)[i] == b[i - a.len()]);
        } else {
            assert((a + b)[i] == a[i]);
        }
    }
}

proof fn lemma_digits_no_lt(n: nat)
    ensures
        no_lt(dec_digits(n)),
    decreases n,
{
    if n >= 10 {
        lemma_digits_no_lt(n / 10);
        assert forall|i: int| 0 <= i < dec_digits(n).len() implies dec_digits(n)[i] != '<' by {
            if i < dec_digits(n / 10).len() {
                assert(dec_digits(n)[i] == dec_digits(n / 10)[i]);
            }
        }
    }
}

proof fn lemma_int_no_lt(n: int)
    ensures
        no_lt(dec_int(n)),
{
    if n < 0 {
        lemma_digits_no_lt((-n) as nat);
        lemma_no_lt_concat(seq!['-'], dec_digits((-n) as nat));
    } else {
        lemma_digits_no_lt(n as nat);
    }
}

proof fn lemma_indent_no_lt(level: nat)
    ensures
        no_lt(indent(level)),
    decreases level,
{
    if level > 0 {
        lemma_indent_no_lt((level - 1) as nat);
        reveal_strlit("  ");
        lemma_no_lt_concat(indent((level - 1) as nat), "  "@);
    }
}

proof fn lemma_count_tail(s: Seq<char>, m: int, n: int)
    requires
        0 <= m <= n <= s.len(),
        forall|i: int| m <= i < n ==> s[i] != '<',
    ensures
        count_upto(s, doc_marker(), n) == count_upto(s, doc_marker(), m),
    decreases n - m,
{
    if n > m {
        lemma_count_tail(s, m, n - 1);
        if occurs_at(s, doc_marker(), n - 1) {
            assert(s.subrange(n - 1, n - 1 + doc_marker().len())[0] == '<');
        }
    }
}

/// The opening of a document's marker line holds one marker and is closed.
proof fn lemma_marker_literal()
    ensures
        closed("<!-- sy:doc id="@),
        occurrences("<!-- sy:doc id="@, doc_marker()) == 1,
{
    reveal_strlit("<!-- sy:doc id=");
    let l = "<!-- sy:doc id="@;
    assert(l.subrange(0, 12) =~= doc_marker());
    assert(occurs_at(l, doc_marker(), 0));
    assert(count_upto(l, doc_marker(), 1) == 1) by {
        assert(count_upto(l, doc_marker(), 0) == 0);
    }
    lemma_count_tail(l, 1, l.len() as int);
}

/// The opening of the closing line holds no marker and is closed.
proof fn lemma_trailer_literal()
    ensures
        closed("<!-- sy:tree depth="@),
        occurrences("<!-- sy:tree depth="@, doc_marker()) == 0,
{
    reveal_strlit("<!-- sy:tree depth=");
    let l = "<!-- sy:tree depth="@;
    assert(l.subrange(0, 12)[8] != doc_marker()[8]);
    assert(!occurs_at(l, doc_marker(), 0));
    assert(count_upto(l, doc_marker(), 1) == 0) by {
        assert(count_upto(l, doc_marker(), 0) == 0);
    }
    lemma_count_tail(l, 1, l.len() as int);
}

/// The texts a node's lines take from the node hold no `<`: its id, its
/// hpath and the `Debug` text of its title.
pub open spec fn lt_free(t: TreeView) -> bool {
    no_lt(t.id) && no_lt(t.hpath) && no_lt(debug_str_text(t.title))
}

/// Every node of the loaded tree is `<`-free, and every node below the
/// root has an id.
pub open spec fn marker_ready(t: TreeView) -> bool
    decreases t,
{
    lt_free(t) && ready_children(t.children)
}

/// Every sibling is `<`-free, has an id, and so are the nodes below it.
pub open spec fn ready_children(cs: Seq<TreeView>) -> bool
    decreases cs,
{
    cs.len() == 0 || (ready_children(cs.drop_last()) && cs.last().id.len() > 0 && marker_ready(cs.last()))
}

proof fn lemma_marker_line_marks(t: TreeView, level: nat)
    requires
        lt_free(t),
    ensures
        closed(marker_line(t, level)),
        occurrences(marker_line(t, level), doc_marker()) == 1,
{
    let ind = indent(level);
    let lit = "<!-- sy:doc id="@;
    reveal_strlit(" hpath=");
    reveal_strlit(" title=");
    reveal_strlit(" sort=");
    reveal_strlit(" -->\n");
    lemma_int_no_lt(t.sort as int);
    let rest = t.id + " hpath="@ + t.hpath + " title="@ + debug_str_text(t.title) + " sort="@ + dec_int(t.sort as int) + " -->\n"@;
    lemma_no_lt_concat(t.id, " hpath="@);
    lemma_no_lt_concat(t.id + " hpath="@, t.hpath);
    lemma_no_lt_concat(t.id + " hpath="@ + t.hpath, " title="@);
    lemma_no_lt_concat(t.id + " hpath="@ + t.hpath + " title="@, debug_str_text(t.title));
    lemma_no_lt_concat(t.id + " hpath="@ + t.hpath + " title="@ + debug_str_text(t.title), " sort="@);
    lemma_no_lt_concat(t.id + " hpath="@ + t.hpath + " title="@ + debug_str_text(t.title) + " sort="@, dec_int(t.sort as int));
    lemma_no_lt_concat(t.id + " hpath="@ + t.hpath + " title="@ + debug_str_text(t.title) + " sort="@ + dec_int(t.sort as int), " -->\n"@);
    assert(marker_line(t, level) =~= ind + (lit + rest));
    lemma_indent_no_lt(level);
    lemma_no_lt_text(ind);
    lemma_no_lt_text(rest);
    lemma_marker_literal();
    lemma_occ_concat(lit, rest);
    lemma_closed_concat(lit, rest);
    lemma_occ_concat(ind, lit + rest);
    lemma_closed_concat(ind, lit + rest);
}

proof fn lemma_summary_line_marks(t: TreeView, level: nat)
    requires
        lt_free(t),
    ensures
        closed(summary_line(t, level)),
        occurrences(summary_line(t, level), doc_marker()) == 0,
{
    reveal_strlit("- ");
    reveal_strlit(" (");
    reveal_strlit(" subdoc");
    reveal_strlit("s");
    reveal_strlit("");
    reveal_strlit(")");
    reveal_strlit(" (truncated)");
    reveal_strlit("\n");
    lemma_indent_no_lt(level);
    lemma_digits_no_lt(t.doc_count_recursive);
    let a0 = indent(level) + "- "@;
    lemma_no_lt_concat(indent(level), "- "@);
    lemma_no_lt_concat(a0, t.hpath);
    lemma_no_lt_concat(a0 + t.hpath, " ("@);
    lemma_no_lt_concat(a0 + t.hpath + " ("@, dec_digits(t.doc_count_recursive));
    lemma_no_lt_concat(a0 + t.hpath + " ("@ + dec_digits(t.doc_count_recursive), " subdoc"@);
    lemma_no_lt_concat(a0 + t.hpath + " ("@ + dec_digits(t.doc_count_recursive) + " subdoc"@, plural_s(t.doc_count_recursive));
    let a1 = a0 + t.hpath + " ("@ + dec_digits(t.doc_count_recursive) + " subdoc"@ + plural_s(t.doc_count_recursive);
    lemma_no_lt_concat(a1, ")"@);
    let cut = if cut_below(t) { " (truncated)"@ } else { ""@ };
    lemma_no_lt_concat(a1 + ")"@, cut);
    lemma_no_lt_concat(a1 + ")"@ + cut, "\n"@);
    assert(summary_line(t, level) == a1 + ")"@ + cut + "\n"@);
    lemma_no_lt_text(summary_line(t, level));
}

proof fn lemma_node_marks(t: TreeView, level: nat)
    requires
        marker_ready(t),
    ensures
        closed(node_text(t, level)),
        occurrences(node_text(t, level), doc_marker()) == 1 + rendered_counts(t.children),
    decreases t,
{
    lemma_marker_line_marks(t, level);
    lemma_summary_line_marks(t, level);
    lemma_nodes_marks(t.children, level + 1);
    let m = marker_line(t, level);
    let u = summary_line(t, level);
    let k = nodes_text(t.children, level + 1);
    assert(node_text(t, level) == m + u + k);
    lemma_occ_concat(m, u);
    lemma_closed_concat(m, u);
    lemma_occ_concat(m + u, k);
    lemma_closed_concat(m + u, k);
}

proof fn lemma_nodes_marks(cs: Seq<TreeView>, level: nat)
    requires
        ready_children(cs),
    ensures
        closed(nodes_text(cs, level)),
        occurrences(nodes_text(cs, level), doc_marker()) == rendered_counts(cs),
    decreases cs,
{
    if cs.len() == 0 {
        assert(nodes_text(cs, level) =~= Seq::<char>::empty());
        assert(no_lt(Seq::<char>::empty()));
        lemma_no_lt_text(Seq::<char>::empty());
    } else {
        lemma_nodes_marks(cs.drop_last(), level);
        lemma_node_marks(cs.last(), level);
        let a = nodes_text(cs.drop_last(), level);
        let b = node_text(cs.last(), level);
        assert(nodes_text(cs, level) == a + b);
        assert(rendered_count(cs.last()) == 1 + rendered_counts(cs.last().children));
        assert(rendered_counts(cs) == rendered_counts(cs.drop_last()) + rendered_count(cs.last()));
        lemma_occ_concat(a, b);
        lemma_closed_concat(a, b);
    }
}

/// In a rendering, the closing line's loaded count is the number of
/// document markers (`<!-- sy:doc `) in the text, where no node's id or
/// hpath, nor the `Debug` text of its title, holds a `<`, and every node
/// below the root has an id (a root without one gets no marker).
pub proof fn lemma_tree_md_markers(t: TreeView, d: Depth)
    requires
        marker_ready(t),
    ensures
        occurrences(tree_md(t, d), doc_marker()) == rendered_count(t),
{
    let body = if t.id.len() == 0 { nodes_text(t.children, 0) } else { node_text(t, 0) };
    let tr = tree_trailer(d, rendered_count(t), truncated_at(t));
    assert(tree_md(t, d) =~= body + tr);
    if t.id.len() == 0 {
        lemma_nodes_marks(t.children, 0);
    } else {
        lemma_node_marks(t, 0);
    }
    // the closing line holds `<` only at its start, where no marker begins
    reveal_strlit(" total_loaded=");
    reveal_strlit(" truncated=");
    reveal_strlit(" -->\n");
    reveal_strlit("all");
    reveal_strlit("true (depth limit: ");
    reveal_strlit(", use --depth all to see full tree)");
    reveal_strlit("true (node limit reached)");
    reveal_strlit("false");
    let label = depth_label(d);
    assert(no_lt(label)) by {
        match d {
            Depth::N(n) => { lemma_digits_no_lt(n as nat); },
            Depth::All => {},
        }
    }
    let tl = truncated_label(truncated_at(t), d);
    assert(no_lt(tl)) by {
        if truncated_at(t) {
            match d {
                Depth::N(n) => {
                    lemma_digits_no_lt(n as nat);
                    lemma_no_lt_concat("true (depth limit: "@, dec_digits(n as nat));
                    lemma_no_lt_concat("true (depth limit: "@ + dec_digits(n as nat), ", use --depth all to see full tree)"@);
                },
                Depth::All => {},
            }
        }
    }
    lemma_digits_no_lt(rendered_count(t));
    let rest = label + " total_loaded="@ + dec_digits(rendered_count(t)) + " truncated="@ + tl + " -->\n"@;
    lemma_no_lt_concat(label, " total_loaded="@);
    lemma_no_lt_concat(label + " total_loaded="@, dec_digits(rendered_count(t)));
    lemma_no_lt_concat(label + " total_loaded="@ + dec_digits(rendered_count(t)), " truncated="@);
    lemma_no_lt_concat(label + " total_loaded="@ + dec_digits(rendered_count(t)) + " truncated="@, tl);
    lemma_no_lt_concat(label + " total_loaded="@ + dec_digits(rendered_count(t)) + " truncated="@ + tl, " -->\n"@);
    assert(tr =~= "<!-- sy:tree depth="@ + rest);
    lemma_trailer_literal();
    lemma_no_lt_text(rest);
    lemma_occ_concat("<!-- sy:tree depth="@, rest);
    lemma_occ_concat(body, tr);
}

} // verus!
