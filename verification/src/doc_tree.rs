//! Doc-tree listing: assemble the documents under a notebook or a document
//! into a tree sliced to a depth budget, and render it as agent-markdown.
//!
//! Storage paths follow the kernel layout: a top-level document is stored at
//! `/<id>.sy`, and the children of the document stored at `<p>.sy` live under
//! `<p>/`. The parent key of a path is the text before its last `/` (empty
//! for top-level paths); the children key of a node is its path without the
//! `.sy` suffix. Children of one key are ordered by storage path, and when
//! two rows share a path the later row wins. `doc_count_recursive` counts all
//! descendants, whatever the depth slice.

use vstd::prelude::*;

use crate::doc_meta::{title_of, DocLookup};
use crate::ids::NotebookId;
use crate::text::{
    chars_eq, chars_find, chars_has_suffix, chars_lt, chars_of, chars_rfind, dec_digits,
    dec_u64, first_occurrence, has_prefix, has_suffix,
    last_index_of, lemma_seq_lt_irreflexive, lemma_seq_lt_total, lemma_seq_lt_transitive, owned, push_str, seq_lt, str_eq, string_of, string_of_range,
};

pub use crate::doc_meta::title_from_hpath;

verus! {

/// The budget that stands for "all levels".
pub const ALL_DEPTH_SENTINEL: u32 = 4294967295u32;

/// Row cap of the subtree query.
pub const INTERNAL_SQL_LIMIT: usize = 100000;

/// Tree-traversal depth budget.
#[derive(Debug, Clone, Copy, PartialEq, Eq, Structural)]
pub enum Depth {
    /// Slice the tree to this many levels below the root.
    N(u32),
    /// Unlimited.
    All,
}

/// The numeric budget of a depth.
pub open spec fn budget_of(d: Depth) -> nat {
    match d {
        Depth::N(n) => n as nat,
        Depth::All => ALL_DEPTH_SENTINEL as nat,
    }
}

impl Depth {
    /// The numeric budget: `n` for `N(n)`, `u32::MAX` for `All`.
    pub fn as_budget(self) -> (r: u32)
        ensures
            r == budget_of(self),
    {
        match self {
            Depth::N(n) => n,
            Depth::All => ALL_DEPTH_SENTINEL,
        }
    }
}

/// One node in the assembled tree. The virtual root of a notebook has empty
/// id, title, storage path and timestamps, hpath `/` and sort 0.
#[derive(Debug)]
pub struct TreeNode {
    pub id: String,
    pub title: String,
    pub hpath: String,
    pub has_children: bool,
    pub doc_count_recursive: u64,
    pub created: String,
    pub updated: String,
    pub sort: i64,
    pub icon: String,
    pub notebook_id: String,
    pub notebook_name: String,
    pub storage_path: String,
    /// Children loaded at this depth slice; empty when there are none or
    /// the budget ran out (`has_children` tells which).
    pub children: Vec<TreeNode>,
}

/// Mathematical model of a [`TreeNode`].
pub struct TreeView {
    pub id: Seq<char>,
    pub title: Seq<char>,
    pub hpath: Seq<char>,
    pub has_children: bool,
    pub doc_count_recursive: nat,
    pub created: Seq<char>,
    pub updated: Seq<char>,
    pub sort: i64,
    pub icon: Seq<char>,
    pub notebook_id: Seq<char>,
    pub notebook_name: Seq<char>,
    pub storage_path: Seq<char>,
    pub children: Seq<TreeView>,
}

/// View of a tree node.
pub open spec fn tview(t: TreeNode) -> TreeView
    decreases t,
{
    TreeView {
        id: t.id@,
        title: t.title@,
        hpath: t.hpath@,
        has_children: t.has_children,
        doc_count_recursive: t.doc_count_recursive as nat,
        created: t.created@,
        updated: t.updated@,
        sort: t.sort,
        icon: t.icon@,
        notebook_id: t.notebook_id@,
        notebook_name: t.notebook_name@,
        storage_path: t.storage_path@,
        children: tviews(t.children@),
    }
}

/// Views of a list of tree nodes.
pub open spec fn tviews(s: Seq<TreeNode>) -> Seq<TreeView>
    decreases s,
{
    if s.len() == 0 {
        Seq::empty()
    } else {
        tviews(s.drop_last()).push(tview(s.last()))
    }
}

impl View for TreeNode {
    type V = TreeView;

    open spec fn view(&self) -> TreeView {
        tview(*self)
    }
}

pub(crate) proof fn lemma_tviews_index(s: Seq<TreeNode>, i: int)
    requires
        0 <= i < s.len(),
    ensures
        tviews(s).len() == s.len(),
        tviews(s)[i] == tview(s[i]),
    decreases s.len(),
{
    if i < s.len() - 1 {
        lemma_tviews_index(s.drop_last(), i);
    } else {
        lemma_tviews_len(s.drop_last());
    }
}

pub(crate) proof fn lemma_tviews_len(s: Seq<TreeNode>)
    ensures
        tviews(s).len() == s.len(),
    decreases s.len(),
{
    if s.len() > 0 {
        lemma_tviews_len(s.drop_last());
    }
}

/// Number of loaded levels below a node.
pub open spec fn tree_depth(t: TreeView) -> nat
    decreases t,
{
    forest_depth(t.children)
}

/// Number of loaded levels in a list of siblings (0 when empty).
pub open spec fn forest_depth(cs: Seq<TreeView>) -> nat
    decreases cs,
{
    if cs.len() == 0 {
        0
    } else {
        let a = forest_depth(cs.drop_last());
        let b = 1 + tree_depth(cs.last());
        if a >= b { a } else { b }
    }
}

pub(crate) proof fn lemma_depth_child(cs: Seq<TreeView>, i: int)
    requires
        0 <= i < cs.len(),
    ensures
        1 + tree_depth(cs[i]) <= forest_depth(cs),
    decreases cs.len(),
{
    if i < cs.len() - 1 {
        lemma_depth_child(cs.drop_last(), i);
    }
}

/// A `type='d'` row of the `blocks` table.
#[derive(Debug)]
pub struct DocRow {
    pub id: String,
    pub hpath: String,
    pub path: String,
    pub sort: i64,
    pub created: String,
    pub updated: String,
    pub ial: String,
}

/// The `.sy` suffix of storage paths.
pub open spec fn sy_suffix() -> Seq<char> {
    seq!['.', 's', 'y']
}

/// A storage path without its trailing `.sy`, if it has one.
pub open spec fn strip_sy(p: Seq<char>) -> Seq<char> {
    if has_suffix(p, sy_suffix()) {
        p.subrange(0, p.len() - 3)
    } else {
        p
    }
}

/// The parent key of a storage path: the text before its last `/`, empty
/// when that `/` is the first character or there is none.
pub open spec fn parent_key(p: Seq<char>) -> Seq<char> {
    match last_index_of(p, '/') {
        Some(i) => if i == 0 { Seq::empty() } else { p.subrange(0, i) },
        None => Seq::empty(),
    }
}

/// `icon="` as characters.
pub open spec fn icon_key() -> Seq<char> {
    seq!['i', 'c', 'o', 'n', '=', '"']
}

/// The `icon` value of an inline attribute list: the text between the first
/// `icon="` and the next `"`; empty when either is missing.
pub open spec fn icon_of(ial: Seq<char>) -> Seq<char> {
    match first_occurrence(ial, icon_key()) {
        Some(i) => {
            let rest = ial.subrange(i + 6, ial.len() as int);
            match first_occurrence(rest, seq!['"']) {
                Some(e) => rest.subrange(0, e),
                None => Seq::empty(),
            }
        },
        None => Seq::empty(),
    }
}

/// Inserts `r` into a list ordered by storage path; a row with the same
/// path is replaced.
pub open spec fn sorted_insert(s: Seq<DocRow>, r: DocRow) -> Seq<DocRow>
    decreases s.len(),
{
    if s.len() == 0 {
        seq![r]
    } else if seq_lt(r.path@, s[0].path@) {
        seq![r] + s
    } else if r.path@ == s[0].path@ {
        seq![r] + s.drop_first()
    } else {
        seq![s[0]] + sorted_insert(s.drop_first(), r)
    }
}

/// Children of key `k` among `rows[0..n]`: ordered by path, later rows
/// replacing earlier rows with the same path.
pub open spec fn kids_upto(rows: Seq<DocRow>, k: Seq<char>, n: int) -> Seq<DocRow>
    decreases n,
{
    if n <= 0 || n > rows.len() {
        Seq::empty()
    } else if parent_key(rows[n - 1].path@) == k {
        sorted_insert(kids_upto(rows, k, n - 1), rows[n - 1])
    } else {
        kids_upto(rows, k, n - 1)
    }
}

/// Children of key `k`.
pub open spec fn kids_of(rows: Seq<DocRow>, k: Seq<char>) -> Seq<DocRow> {
    kids_upto(rows, k, rows.len() as int)
}

/// Length of the longest storage path.
pub open spec fn max_path_len(rows: Seq<DocRow>) -> nat
    decreases rows.len(),
{
    if rows.len() == 0 {
        0
    } else {
        let m = max_path_len(rows.drop_last());
        let l = rows.last().path@.len();
        if l > m { l } else { m }
    }
}

/// Termination measure for keys: keys grow strictly along parent links.
pub open spec fn key_metric(rows: Seq<DocRow>, k: Seq<char>) -> nat {
    if k.len() <= max_path_len(rows) { (max_path_len(rows) - k.len()) as nat } else { 0 }
}

/// Number of descendants below key `k`.
pub open spec fn descendant_count(rows: Seq<DocRow>, k: Seq<char>) -> nat
    decreases key_metric(rows, k), 1nat, 0nat,
{
    descendants_in(rows, k, kids_of(rows, k))
}

/// Sum over `cs` of one plus the descendants of each; `cs` are children of `k`.
pub open spec fn descendants_in(rows: Seq<DocRow>, k: Seq<char>, cs: Seq<DocRow>) -> nat
    decreases key_metric(rows, k), 0nat, cs.len(),
{
    if cs.len() == 0 {
        0
    } else {
        let ck = strip_sy(cs.last().path@);
        descendants_in(rows, k, cs.drop_last()) + 1 + (if k.len() < ck.len() && ck.len() <= max_path_len(rows) {
            descendant_count(rows, ck)
        } else {
            0
        })
    }
}

/// Rows the assembly can walk: no storage path is empty or exactly `.sy`
/// (such a row would be its own child).
pub open spec fn rows_wf(rows: Seq<DocRow>) -> bool {
    forall|i: int| 0 <= i < rows.len() ==> (#[trigger] rows[i]).path@ != Seq::<char>::empty()
        && rows[i].path@ != sy_suffix()
}

/// Every row's descendant count fits in a `u64`.
pub open spec fn counts_fit(rows: Seq<DocRow>) -> bool {
    forall|i: int| 0 <= i < rows.len() ==> descendant_count(rows, strip_sy((#[trigger] rows[i]).path@)) <= u64::MAX
}

/// The node built for row `r` with `b` levels of children to load.
pub open spec fn node_view(rows: Seq<DocRow>, r: DocRow, nb: Seq<char>, name: Seq<char>, b: nat) -> TreeView
    decreases b, 0nat, 0nat,
{
    let kids = kids_of(rows, strip_sy(r.path@));
    TreeView {
        id: r.id@,
        title: title_of(r.hpath@),
        hpath: r.hpath@,
        has_children: kids.len() > 0,
        doc_count_recursive: descendant_count(rows, strip_sy(r.path@)),
        created: r.created@,
        updated: r.updated@,
        sort: r.sort,
        icon: icon_of(r.ial@),
        notebook_id: nb,
        notebook_name: name,
        storage_path: r.path@,
        children: if b == 0 { Seq::empty() } else { node_views(rows, kids, nb, name, (b - 1) as nat) },
    }
}

/// The nodes built for a list of rows.
pub open spec fn node_views(rows: Seq<DocRow>, cs: Seq<DocRow>, nb: Seq<char>, name: Seq<char>, b: nat) -> Seq<TreeView>
    decreases b, 1nat, cs.len(),
{
    if cs.len() == 0 {
        Seq::empty()
    } else {
        node_views(rows, cs.drop_last(), nb, name, b).push(node_view(rows, cs.last(), nb, name, b))
    }
}

/// Descendants of the notebook's virtual root.
pub open spec fn top_total(rows: Seq<DocRow>) -> nat {
    descendants_in(rows, Seq::empty(), kids_of(rows, Seq::empty()))
}

/// The virtual root of a notebook, with `b` levels below it.
pub open spec fn virtual_root(rows: Seq<DocRow>, nb: Seq<char>, name: Seq<char>, b: nat) -> TreeView {
    let top = kids_of(rows, Seq::empty());
    TreeView {
        id: Seq::empty(),
        title: Seq::empty(),
        hpath: seq!['/'],
        has_children: top.len() > 0,
        doc_count_recursive: top_total(rows),
        created: Seq::empty(),
        updated: Seq::empty(),
        sort: 0,
        icon: Seq::empty(),
        notebook_id: nb,
        notebook_name: name,
        storage_path: Seq::empty(),
        children: if b >= 1 { node_views(rows, top, nb, name, (b - 1) as nat) } else { Seq::empty() },
    }
}

/// The last row stored at path `p`, if any.
pub open spec fn row_at_path(rows: Seq<DocRow>, p: Seq<char>) -> Option<DocRow>
    decreases rows.len(),
{
    if rows.len() == 0 {
        None
    } else if rows.last().path@ == p {
        Some(rows.last())
    } else {
        row_at_path(rows.drop_last(), p)
    }
}

/// The tree assembled from `rows`: rooted at the row stored at `root`, or
/// at the notebook's virtual root when `root` is `None`.
pub open spec fn assembled(rows: Seq<DocRow>, nb: Seq<char>, name: Seq<char>, root: Option<Seq<char>>, d: Depth) -> TreeView {
    match root {
        None => virtual_root(rows, nb, name, budget_of(d)),
        Some(p) => node_view(rows, row_at_path(rows, p).unwrap(), nb, name, budget_of(d)),
    }
}

// ---------------------------------------------------------------------------
// Path helpers
// ---------------------------------------------------------------------------

fn sy_chars() -> (r: Vec<char>)
    ensures
        r@ == sy_suffix(),
{
    let v = vec!['.', 's', 'y'];
    assert(v@ =~= sy_suffix());
    v
}

fn strip_sy_chars(p: &[char]) -> (r: Vec<char>)
    ensures
        r@ == strip_sy(p@),
{
    let sy = sy_chars();
    let mut out: Vec<char> = Vec::new();
    let end = if chars_has_suffix(p, sy.as_slice()) { p.len() - 3 } else { p.len() };
    let mut i: usize = 0;
    while i < end
        invariant
            end <= p@.len(),
            i <= end,
            out@ == p@.subrange(0, i as int),
        decreases end - i,
    {
        out.push(p[i]);
        i = i + 1;
        assert(out@ =~= p@.subrange(0, i as int));
    }
    assert(p@.subrange(0, p@.len() as int) =~= p@);
    out
}

fn parent_key_chars(p: &[char]) -> (r: Vec<char>)
    ensures
        r@ == parent_key(p@),
{
    match chars_rfind(p, '/') {
        Some(i) => {
            if i == 0 {
                Vec::new()
            } else {
                let mut out: Vec<char> = Vec::new();
                let mut j: usize = 0;
                while j < i
                    invariant
                        i < p@.len(),
                        j <= i,
                        out@ == p@.subrange(0, j as int),
                    decreases i - j,
                {
                    out.push(p[j]);
                    j = j + 1;
                    assert(out@ =~= p@.subrange(0, j as int));
                }
                out
            }
        },
        None => Vec::new(),
    }
}

/// Strips a trailing `.sy` from a storage path; other paths pass through.
pub fn strip_sy_suffix(path: &str) -> (r: String)
    ensures
        r@ == strip_sy(path@),
{
    let cs = chars_of(path);
    let s = strip_sy_chars(cs.as_slice());
    string_of(s.as_slice())
}

/// The parent key of a storage path: `""` for `/<id>.sy`, `/<p>` for
/// `/<p>/<id>.sy`, and `""` for a path without `/`.
pub fn parent_path_of(path: &str) -> (r: String)
    ensures
        r@ == parent_key(path@),
{
    let cs = chars_of(path);
    let s = parent_key_chars(cs.as_slice());
    string_of(s.as_slice())
}

/// Extracts the quoted `icon` value from an inline attribute list such as
/// `{: id="..." icon=":rocket:"}`; empty when absent or unterminated.
pub fn extract_icon(ial: &str) -> (r: String)
    ensures
        r@ == icon_of(ial@),
{
    let cs = chars_of(ial);
    let key = vec!['i', 'c', 'o', 'n', '=', '"'];
    assert(key@ =~= icon_key());
    match chars_find(cs.as_slice(), key.as_slice()) {
        Some(i) => {
            let n = cs.len();
            assert(i + 6 <= n);
            let start = i + 6;
            let rest = string_of_range(cs.as_slice(), start, cs.len());
            let rest_cs = chars_of(rest.as_str());
            let q = vec!['"'];
            assert(q@ =~= seq!['"']);
            match chars_find(rest_cs.as_slice(), q.as_slice()) {
                Some(e) => string_of_range(rest_cs.as_slice(), 0, e),
                None => String::new(),
            }
        },
        None => String::new(),
    }
}

// ---------------------------------------------------------------------------
// Assembly
// ---------------------------------------------------------------------------

/// The rows at the given indices.
pub open spec fn pick(rows: Seq<DocRow>, idx: Seq<usize>) -> Seq<DocRow> {
    idx.map_values(|i: usize| rows[i as int])
}

/// Per-row character data precomputed once for the assembly.
struct Prepared {
    paths: Vec<Vec<char>>,
    parents: Vec<Vec<char>>,
    keys: Vec<Vec<char>>,
}

spec fn prepared_for(p: Prepared, rows: Seq<DocRow>) -> bool {
    &&& p.paths@.len() == rows.len()
    &&& p.parents@.len() == rows.len()
    &&& p.keys@.len() == rows.len()
    &&& forall|i: int| 0 <= i < rows.len() ==> (#[trigger] p.paths@[i])@ == rows[i].path@
    &&& forall|i: int| 0 <= i < rows.len() ==> (#[trigger] p.parents@[i])@ == parent_key(rows[i].path@)
    &&& forall|i: int| 0 <= i < rows.len() ==> (#[trigger] p.keys@[i])@ == strip_sy(rows[i].path@)
}

fn prepare(rows: &Vec<DocRow>) -> (r: Prepared)
    ensures
        prepared_for(r, rows@),
{
    let mut paths: Vec<Vec<char>> = Vec::new();
    let mut parents: Vec<Vec<char>> = Vec::new();
    let mut keys: Vec<Vec<char>> = Vec::new();
    let mut i: usize = 0;
    while i < rows.len()
        invariant
            i <= rows@.len(),
            paths@.len() == i,
            parents@.len() == i,
            keys@.len() == i,
            forall|k: int| 0 <= k < i ==> (#[trigger] paths@[k])@ == rows@[k].path@,
            forall|k: int| 0 <= k < i ==> (#[trigger] parents@[k])@ == parent_key(rows@[k].path@),
            forall|k: int| 0 <= k < i ==> (#[trigger] keys@[k])@ == strip_sy(rows@[k].path@),
        decreases rows@.len() - i,
    {
        let p = chars_of(rows[i].path.as_str());
        let par = parent_key_chars(p.as_slice());
        let key = strip_sy_chars(p.as_slice());
        paths.push(p);
        parents.push(par);
        keys.push(key);
        i = i + 1;
    }
    Prepared { paths, parents, keys }
}

proof fn lemma_sorted_insert_members(s: Seq<DocRow>, r: DocRow)
    ensures
        forall|x: DocRow| sorted_insert(s, r).contains(x) ==> x == r || s.contains(x),
        sorted_insert(s, r).len() >= 1,
    decreases s.len(),
{
    if s.len() == 0 {
    } else if seq_lt(r.path@, s[0].path@) {
        assert forall|x: DocRow| sorted_insert(s, r).contains(x) implies x == r || s.contains(x) by {
            let j = choose|j: int| 0 <= j < sorted_insert(s, r).len() && sorted_insert(s, r)[j] == x;
            if j > 0 { assert(s[j - 1] == x); }
        }
    } else if r.path@ == s[0].path@ {
        assert forall|x: DocRow| sorted_insert(s, r).contains(x) implies x == r || s.contains(x) by {
            let j = choose|j: int| 0 <= j < sorted_insert(s, r).len() && sorted_insert(s, r)[j] == x;
            if j > 0 { assert(s[j] == x); }
        }
    } else {
        lemma_sorted_insert_members(s.drop_first(), r);
        assert forall|x: DocRow| sorted_insert(s, r).contains(x) implies x == r || s.contains(x) by {
            let t = sorted_insert(s.drop_first(), r);
            let j = choose|j: int| 0 <= j < sorted_insert(s, r).len() && sorted_insert(s, r)[j] == x;
            if j > 0 {
                assert(t[j - 1] == x);
                assert(t.contains(x));
                if x != r {
                    assert(s.drop_first().contains(x));
                    let m = choose|m: int| 0 <= m < s.drop_first().len() && s.drop_first()[m] == x;
                    assert(s[m + 1] == x);
                }
            } else {
                assert(s[0] == x);
            }
        }
    }
}

/// Every child of `k` is a row whose parent key is `k`.
proof fn lemma_kids_members(rows: Seq<DocRow>, k: Seq<char>, n: int)
    ensures
        forall|x: DocRow| kids_upto(rows, k, n).contains(x) ==> exists|j: int|
            0 <= j < rows.len() && rows[j] == x && parent_key(rows[j].path@) == k,
    decreases n,
{
    if n <= 0 || n > rows.len() {
    } else {
        lemma_kids_members(rows, k, n - 1);
        if parent_key(rows[n - 1].path@) != k {
            assert(kids_upto(rows, k, n) == kids_upto(rows, k, n - 1));
        } else {
            let prev = kids_upto(rows, k, n - 1);
            lemma_sorted_insert_members(prev, rows[n - 1]);
            assert forall|x: DocRow| kids_upto(rows, k, n).contains(x) implies exists|j: int|
                0 <= j < rows.len() && rows[j] == x && parent_key(rows[j].path@) == k by {
                if x == rows[n - 1] {
                    assert(0 <= n - 1 < rows.len() && rows[n - 1] == x && parent_key(rows[n - 1].path@) == k);
                } else {
                    assert(prev.contains(x));
                }
            }
        }
    }
}

proof fn lemma_max_path_len(rows: Seq<DocRow>, j: int)
    requires
        0 <= j < rows.len(),
    ensures
        rows[j].path@.len() <= max_path_len(rows),
    decreases rows.len(),
{
    if j < rows.len() - 1 {
        lemma_max_path_len(rows.drop_last(), j);
    }
}

proof fn lemma_last_index_of(s: Seq<char>, c: char)
    ensures
        last_index_of(s, c) matches Some(i) ==> 0 <= i < s.len() && s[i] == c
            && forall|j: int| i < j < s.len() ==> s[j] != c,
        last_index_of(s, c) is None ==> forall|j: int| 0 <= j < s.len() ==> s[j] != c,
    decreases s.len(),
{
    if s.len() > 0 && s.last() != c {
        lemma_last_index_of(s.drop_last(), c);
        assert forall|j: int| 0 <= j < s.len() - 1 implies s[j] == s.drop_last()[j] by {}
    }
}

/// A child's children key is strictly longer than its parent key and no
/// longer than the longest path: the key grows down the tree.
proof fn lemma_child_key_grows(rows: Seq<DocRow>, j: int, k: Seq<char>)
    requires
        rows_wf(rows),
        0 <= j < rows.len(),
        parent_key(rows[j].path@) == k,
    ensures
        k.len() < strip_sy(rows[j].path@).len(),
        strip_sy(rows[j].path@).len() <= max_path_len(rows),
{
    let p = rows[j].path@;
    assert(rows_wf(rows));
    assert(p != Seq::<char>::empty() && p != sy_suffix());
    lemma_max_path_len(rows, j);
    lemma_last_index_of(p, '/');
    if has_suffix(p, sy_suffix()) {
        let tail = p.subrange(p.len() - 3, p.len() as int);
        assert(tail == sy_suffix());
        assert(tail[0] == p[p.len() - 3]);
        assert(tail[1] == p[p.len() - 2]);
        assert(tail[2] == p[p.len() - 1]);
        assert(p[p.len() - 3] == '.');
        assert(p[p.len() - 2] == 's');
        assert(p[p.len() - 1] == 'y');
        if p.len() == 3 {
            assert(p =~= sy_suffix());
        }
        assert(p.len() >= 4);
        assert(strip_sy(p).len() == p.len() - 3);
        match last_index_of(p, '/') {
            Some(i) => {
                assert(p[i] == '/');
                assert(i < p.len() - 3);
                if i == 0 {
                    assert(k.len() == 0);
                } else {
                    assert(k.len() == i);
                }
            },
            None => {
                assert(k.len() == 0);
            },
        }
    } else {
        assert(strip_sy(p) == p);
        if p.len() == 0 {
            assert(p =~= Seq::<char>::empty());
        }
        match last_index_of(p, '/') {
            Some(i) => {
                if i == 0 {
                    assert(k.len() == 0);
                } else {
                    assert(k.len() == i);
                }
            },
            None => {
                assert(k.len() == 0);
            },
        }
    }
}

/// Index-vector insertion that mirrors [`sorted_insert`].
fn insert_sorted(rows: &Vec<DocRow>, prep: &Prepared, acc: &mut Vec<usize>, n: usize)
    requires
        prepared_for(*prep, rows@),
        n < rows@.len(),
        forall|j: int| 0 <= j < old(acc)@.len() ==> (#[trigger] old(acc)@[j]) < rows@.len(),
    ensures
        pick(rows@, final(acc)@) == sorted_insert(pick(rows@, old(acc)@), rows@[n as int]),
        forall|j: int| 0 <= j < final(acc)@.len() ==> (#[trigger] final(acc)@[j]) < rows@.len(),
{
    let ghost s = pick(rows@, acc@);
    let ghost r = rows@[n as int];
    let ghost orig = acc@;
    let len = acc.len();
    let (j, action) = insertion_point(rows, prep, acc, n);
    let ghost rest = s.skip(j as int);
    if action == 0 {
        acc.push(n);
        proof {
            assert(s.skip(len as int) =~= Seq::<DocRow>::empty());
            assert(s.take(len as int) =~= s);
            assert(pick(rows@, acc@) =~= s + seq![r]);
            assert forall|m: int| 0 <= m < acc@.len() implies (#[trigger] acc@[m]) < rows@.len() by {
                if m < len {
                    assert(acc@[m] == orig[m]);
                }
            }
        }
    } else if action == 1 {
        acc.insert(j, n);
        proof {
            let target = s.take(j as int) + (seq![r] + rest);
            assert forall|m: int| 0 <= m < acc@.len() implies pick(rows@, acc@)[m] == target[m] by {
                if m < j {
                    assert(acc@[m] == orig[m]);
                } else if m == j {
                    assert(acc@[m] == n);
                } else {
                    assert(acc@[m] == orig[m - 1]);
                    assert(rest[m - 1 - j] == s[m - 1]);
                }
            }
            assert(pick(rows@, acc@) =~= target);
            assert forall|m: int| 0 <= m < acc@.len() implies (#[trigger] acc@[m]) < rows@.len() by {
                if m < j {
                    assert(acc@[m] == orig[m]);
                } else if m > j {
                    assert(acc@[m] == orig[m - 1]);
                }
            }
        }
    } else {
        acc.set(j, n);
        proof {
            let target = s.take(j as int) + (seq![r] + rest.drop_first());
            assert forall|m: int| 0 <= m < acc@.len() implies pick(rows@, acc@)[m] == target[m] by {
                if m < j {
                    assert(acc@[m] == orig[m]);
                } else if m == j {
                    assert(acc@[m] == n);
                } else {
                    assert(acc@[m] == orig[m]);
                    assert(rest[m - j] == s[m]);
                }
            }
            assert(pick(rows@, acc@) =~= target);
            assert forall|m: int| 0 <= m < acc@.len() implies (#[trigger] acc@[m]) < rows@.len() by {
                if m != j {
                    assert(acc@[m] == orig[m]);
                }
            }
        }
    }
}

/// Where [`sorted_insert`] puts row `n` into the rows at `acc`: at index
/// `j`, appended (action 0), inserted before (1) or replacing (2).
fn insertion_point(rows: &Vec<DocRow>, prep: &Prepared, acc: &Vec<usize>, n: usize) -> (res: (usize, u8))
    requires
        prepared_for(*prep, rows@),
        n < rows@.len(),
        forall|j: int| 0 <= j < acc@.len() ==> (#[trigger] acc@[j]) < rows@.len(),
    ensures
        res.0 <= acc@.len(),
        res.1 == 0 ==> res.0 == acc@.len() && sorted_insert(pick(rows@, acc@), rows@[n as int])
            == pick(rows@, acc@) + seq![rows@[n as int]],
        res.1 == 1 ==> res.0 < acc@.len() && sorted_insert(pick(rows@, acc@), rows@[n as int])
            == pick(rows@, acc@).take(res.0 as int) + (seq![rows@[n as int]] + pick(rows@, acc@).skip(res.0 as int)),
        res.1 == 2 ==> res.0 < acc@.len() && sorted_insert(pick(rows@, acc@), rows@[n as int])
            == pick(rows@, acc@).take(res.0 as int) + (seq![rows@[n as int]] + pick(rows@, acc@).skip(res.0 as int).drop_first()),
        res.1 <= 2,
{
    let ghost s = pick(rows@, acc@);
    let ghost r = rows@[n as int];
    let mut j: usize = 0;
    let len = acc.len();
    assert(s.skip(0) =~= s);
    assert(s.take(0) =~= Seq::<DocRow>::empty());
    while j < len
        invariant
            len == acc@.len(),
            s == pick(rows@, acc@),
            r == rows@[n as int],
            prepared_for(*prep, rows@),
            n < rows@.len(),
            forall|m: int| 0 <= m < acc@.len() ==> (#[trigger] acc@[m]) < rows@.len(),
            j <= len,
            sorted_insert(s, r) == s.take(j as int) + sorted_insert(s.skip(j as int), r),
        decreases len - j,
    {
        let a = acc[j];
        let ghost rest = s.skip(j as int);
        assert(rest[0] == rows@[a as int]);
        assert(prep.paths@[a as int]@ == rows@[a as int].path@);
        assert(prep.paths@[n as int]@ == rows@[n as int].path@);
        if chars_lt(prep.paths[n].as_slice(), prep.paths[a].as_slice()) {
            assert(sorted_insert(rest, r) == seq![r] + rest);
            return (j, 1);
        }
        if chars_eq(prep.paths[n].as_slice(), prep.paths[a].as_slice()) {
            assert(sorted_insert(rest, r) == seq![r] + rest.drop_first());
            return (j, 2);
        }
        proof {
            assert(rest.drop_first() =~= s.skip(j + 1));
            assert(s.take(j as int) + (seq![rest[0]] + sorted_insert(s.skip(j + 1), r))
                =~= s.take(j + 1) + sorted_insert(s.skip(j + 1), r));
        }
        j = j + 1;
    }
    proof {
        assert(s.skip(len as int) =~= Seq::<DocRow>::empty());
        assert(s.take(len as int) =~= s);
        assert(sorted_insert(s.skip(len as int), r) == seq![r]);
    }
    (len, 0)
}

/// Indices of the children of key `k`, in child order.
fn kid_rows(rows: &Vec<DocRow>, prep: &Prepared, k: &[char]) -> (r: Vec<usize>)
    requires
        prepared_for(*prep, rows@),
    ensures
        pick(rows@, r@) == kids_of(rows@, k@),
        forall|j: int| 0 <= j < r@.len() ==> (#[trigger] r@[j]) < rows@.len(),
{
    let mut acc: Vec<usize> = Vec::new();
    let mut n: usize = 0;
    assert(pick(rows@, acc@) =~= Seq::<DocRow>::empty());
    while n < rows.len()
        invariant
            prepared_for(*prep, rows@),
            n <= rows@.len(),
            pick(rows@, acc@) == kids_upto(rows@, k@, n as int),
            forall|j: int| 0 <= j < acc@.len() ==> (#[trigger] acc@[j]) < rows@.len(),
        decreases rows@.len() - n,
    {
        assert(prep.parents@[n as int]@ == parent_key(rows@[n as int].path@));
        if chars_eq(prep.parents[n].as_slice(), k) {
            insert_sorted(rows, prep, &mut acc, n);
        }
        n = n + 1;
    }
    acc
}

proof fn lemma_descendants_prefix(rows: Seq<DocRow>, k: Seq<char>, cs: Seq<DocRow>, i: int)
    requires
        0 <= i <= cs.len(),
    ensures
        descendants_in(rows, k, cs.take(i)) <= descendants_in(rows, k, cs),
    decreases cs.len(),
{
    if i < cs.len() {
        assert(cs.drop_last().take(i) =~= cs.take(i));
        lemma_descendants_prefix(rows, k, cs.drop_last(), i);
    } else {
        assert(cs.take(i) =~= cs);
    }
}

/// Facts about the `i`-th child of `k` that the counting and building loops
/// rely on: it is a row whose key is longer than `k`.
proof fn lemma_kid_step(rows: Seq<DocRow>, k: Seq<char>, idx: Seq<usize>, i: int)
    requires
        rows_wf(rows),
        pick(rows, idx) == kids_of(rows, k),
        0 <= i < idx.len(),
        forall|j: int| 0 <= j < idx.len() ==> (#[trigger] idx[j]) < rows.len(),
    ensures
        k.len() < strip_sy(rows[idx[i] as int].path@).len(),
        strip_sy(rows[idx[i] as int].path@).len() <= max_path_len(rows),
        pick(rows, idx).take(i + 1).drop_last() == pick(rows, idx).take(i),
        pick(rows, idx).take(i + 1).last() == rows[idx[i] as int],
{
    let cs = pick(rows, idx);
    lemma_kids_members(rows, k, rows.len() as int);
    assert(cs[i] == rows[idx[i] as int]);
    assert(kids_of(rows, k).contains(cs[i]));
    let j = choose|j: int| 0 <= j < rows.len() && rows[j] == cs[i] && parent_key(rows[j].path@) == k;
    lemma_child_key_grows(rows, j, k);
    assert(cs.take(i + 1).drop_last() =~= cs.take(i));
}

/// Descendants below key `k`, computed by walking its children.
fn count_below(rows: &Vec<DocRow>, prep: &Prepared, k: &[char]) -> (r: u64)
    requires
        prepared_for(*prep, rows@),
        rows_wf(rows@),
        descendant_count(rows@, k@) <= u64::MAX,
    ensures
        r == descendant_count(rows@, k@),
    decreases key_metric(rows@, k@), 1nat,
{
    let kids = kid_rows(rows, prep, k);
    sum_below(rows, prep, k, &kids)
}

/// Sum over the children `kids` of `k` of one plus their descendants.
fn sum_below(rows: &Vec<DocRow>, prep: &Prepared, k: &[char], kids: &Vec<usize>) -> (r: u64)
    requires
        prepared_for(*prep, rows@),
        rows_wf(rows@),
        pick(rows@, kids@) == kids_of(rows@, k@),
        forall|j: int| 0 <= j < kids@.len() ==> (#[trigger] kids@[j]) < rows@.len(),
        descendants_in(rows@, k@, pick(rows@, kids@)) <= u64::MAX,
    ensures
        r == descendants_in(rows@, k@, pick(rows@, kids@)),
    decreases key_metric(rows@, k@), 0nat,
{
    let ghost cs = pick(rows@, kids@);
    let mut total: u64 = 0;
    let mut i: usize = 0;
    assert(cs.take(0) =~= Seq::<DocRow>::empty());
    while i < kids.len()
        invariant
            prepared_for(*prep, rows@),
            rows_wf(rows@),
            cs == pick(rows@, kids@),
            cs == kids_of(rows@, k@),
            forall|j: int| 0 <= j < kids@.len() ==> (#[trigger] kids@[j]) < rows@.len(),
            descendants_in(rows@, k@, cs) <= u64::MAX,
            i <= kids@.len(),
            total == descendants_in(rows@, k@, cs.take(i as int)),
        decreases kids@.len() - i,
    {
        let c = kids[i];
        proof {
            lemma_kid_step(rows@, k@, kids@, i as int);
            lemma_descendants_prefix(rows@, k@, cs, i + 1);
            assert(prep.keys@[c as int]@ == strip_sy(rows@[c as int].path@));
        }
        let sub = count_below(rows, prep, prep.keys[c].as_slice());
        total = total + 1 + sub;
        i = i + 1;
    }
    assert(cs.take(kids@.len() as int) =~= cs);
    total
}

/// The node for row `i` with `budget` levels of children loaded.
#[verifier::spinoff_prover]
fn build_node(rows: &Vec<DocRow>, prep: &Prepared, nb: &String, name: &String, i: usize, budget: u32) -> (r: TreeNode)
    requires
        prepared_for(*prep, rows@),
        rows_wf(rows@),
        counts_fit(rows@),
        i < rows@.len(),
    ensures
        r@ == node_view(rows@, rows@[i as int], nb@, name@, budget as nat),
    decreases budget,
{
    let row = &rows[i];
    let kids = kid_rows(rows, prep, prep.keys[i].as_slice());
    let ghost cs = pick(rows@, kids@);
    let mut children: Vec<TreeNode> = Vec::new();
    if budget > 0 {
        let mut j: usize = 0;
        assert(cs.take(0) =~= Seq::<DocRow>::empty());
        while j < kids.len()
            invariant
                prepared_for(*prep, rows@),
                rows_wf(rows@),
                counts_fit(rows@),
                cs == pick(rows@, kids@),
                cs == kids_of(rows@, strip_sy(rows@[i as int].path@)),
                forall|m: int| 0 <= m < kids@.len() ==> (#[trigger] kids@[m]) < rows@.len(),
                budget > 0,
                j <= kids@.len(),
                tviews(children@) == node_views(rows@, cs.take(j as int), nb@, name@, (budget - 1) as nat),
            decreases kids@.len() - j,
        {
            let ghost before = children@;
            let child = build_node(rows, prep, nb, name, kids[j], budget - 1);
            children.push(child);
            proof {
                lemma_kid_step(rows@, strip_sy(rows@[i as int].path@), kids@, j as int);
                assert(children@.drop_last() =~= before);
            }
            j = j + 1;
        }
        assert(cs.take(kids@.len() as int) =~= cs);
    }
    let count = count_below(rows, prep, prep.keys[i].as_slice());
    TreeNode {
        id: row.id.clone(),
        title: title_from_hpath(row.hpath.as_str()),
        hpath: row.hpath.clone(),
        has_children: kids.len() > 0,
        doc_count_recursive: count,
        created: row.created.clone(),
        updated: row.updated.clone(),
        sort: row.sort,
        icon: extract_icon(row.ial.as_str()),
        notebook_id: nb.clone(),
        notebook_name: name.clone(),
        storage_path: row.path.clone(),
        children,
    }
}

/// Descendants below key `k`, or `None` past `u64::MAX`.
fn count_below_checked(rows: &Vec<DocRow>, prep: &Prepared, k: &[char]) -> (r: Option<u64>)
    requires
        prepared_for(*prep, rows@),
        rows_wf(rows@),
    ensures
        match r {
            Some(c) => c == descendant_count(rows@, k@),
            None => descendant_count(rows@, k@) > u64::MAX,
        },
    decreases key_metric(rows@, k@), 1nat,
{
    let kids = kid_rows(rows, prep, k);
    sum_below_checked(rows, prep, k, &kids)
}

/// Checked form of [`sum_below`].
fn sum_below_checked(rows: &Vec<DocRow>, prep: &Prepared, k: &[char], kids: &Vec<usize>) -> (r: Option<u64>)
    requires
        prepared_for(*prep, rows@),
        rows_wf(rows@),
        pick(rows@, kids@) == kids_of(rows@, k@),
        forall|j: int| 0 <= j < kids@.len() ==> (#[trigger] kids@[j]) < rows@.len(),
    ensures
        match r {
            Some(c) => c == descendants_in(rows@, k@, pick(rows@, kids@)),
            None => descendants_in(rows@, k@, pick(rows@, kids@)) > u64::MAX,
        },
    decreases key_metric(rows@, k@), 0nat,
{
    let ghost cs = pick(rows@, kids@);
    let mut total: u64 = 0;
    let mut i: usize = 0;
    assert(cs.take(0) =~= Seq::<DocRow>::empty());
    while i < kids.len()
        invariant
            prepared_for(*prep, rows@),
            rows_wf(rows@),
            cs == pick(rows@, kids@),
            cs == kids_of(rows@, k@),
            forall|j: int| 0 <= j < kids@.len() ==> (#[trigger] kids@[j]) < rows@.len(),
            i <= kids@.len(),
            total == descendants_in(rows@, k@, cs.take(i as int)),
        decreases kids@.len() - i,
    {
        let c = kids[i];
        proof {
            lemma_kid_step(rows@, k@, kids@, i as int);
            lemma_descendants_prefix(rows@, k@, cs, i + 1);
            assert(prep.keys@[c as int]@ == strip_sy(rows@[c as int].path@));
        }
        let sub = match count_below_checked(rows, prep, prep.keys[c].as_slice()) {
            Some(v) => v,
            None => return None,
        };
        let step = match sub.checked_add(1) {
            Some(v) => v,
            None => return None,
        };
        total = match total.checked_add(step) {
            Some(v) => v,
            None => return None,
        };
        i = i + 1;
    }
    assert(cs.take(kids@.len() as int) =~= cs);
    Some(total)
}

/// `true` when no storage path is empty or exactly `.sy`.
fn paths_walkable(rows: &Vec<DocRow>, prep: &Prepared) -> (r: bool)
    requires
        prepared_for(*prep, rows@),
    ensures
        r == rows_wf(rows@),
{
    let sy = sy_chars();
    let mut i: usize = 0;
    while i < rows.len()
        invariant
            prepared_for(*prep, rows@),
            sy@ == sy_suffix(),
            i <= rows@.len(),
            forall|k: int| 0 <= k < i ==> (#[trigger] rows@[k]).path@ != Seq::<char>::empty()
                && rows@[k].path@ != sy_suffix(),
        decreases rows@.len() - i,
    {
        assert(prep.paths@[i as int]@ == rows@[i as int].path@);
        if prep.paths[i].len() == 0 || chars_eq(prep.paths[i].as_slice(), sy.as_slice()) {
            if prep.paths[i].len() == 0 {
                assert(rows@[i as int].path@ =~= Seq::<char>::empty());
            }
            return false;
        }
        i = i + 1;
    }
    true
}

/// `true` when [`assemble`] can run on these rows and this root: no storage
/// path is empty or exactly `.sy`, every descendant count fits in a `u64`,
/// and the root path, when given, is the storage path of some row (else
/// the notebook's total fits).
pub fn assembly_fits(rows: &Vec<DocRow>, root_path: Option<&str>) -> (r: bool)
    ensures
        r == (rows_wf(rows@) && counts_fit(rows@) && (match root_path {
            Some(p) => row_at_path(rows@, p@) is Some,
            None => top_total(rows@) <= u64::MAX,
        })),
{
    let prep = prepare(rows);
    if !paths_walkable(rows, &prep) {
        return false;
    }
    let mut i: usize = 0;
    while i < rows.len()
        invariant
            prepared_for(prep, rows@),
            rows_wf(rows@),
            i <= rows@.len(),
            forall|k: int| 0 <= k < i ==> descendant_count(rows@, strip_sy((#[trigger] rows@[k]).path@)) <= u64::MAX,
        decreases rows@.len() - i,
    {
        assert(prep.keys@[i as int]@ == strip_sy(rows@[i as int].path@));
        match count_below_checked(rows, &prep, prep.keys[i].as_slice()) {
            Some(_) => {},
            None => return false,
        }
        i = i + 1;
    }
    match root_path {
        Some(p) => {
            let pcs = chars_of(p);
            match find_row_at_path(rows, &prep, pcs.as_slice()) {
                Some(_) => true,
                None => false,
            }
        },
        None => {
            let empty: Vec<char> = Vec::new();
            assert(empty@ =~= Seq::<char>::empty());
            let top = kid_rows(rows, &prep, empty.as_slice());
            match sum_below_checked(rows, &prep, empty.as_slice(), &top) {
                Some(_) => true,
                None => false,
            }
        },
    }
}

/// Index of the last row stored at `p`.
fn find_row_at_path(rows: &Vec<DocRow>, prep: &Prepared, p: &[char]) -> (r: Option<usize>)
    requires
        prepared_for(*prep, rows@),
    ensures
        r is None <==> row_at_path(rows@, p@) is None,
        r matches Some(i) ==> i < rows@.len() && row_at_path(rows@, p@) == Some(rows@[i as int]),
{
    let mut i: usize = rows.len();
    assert(rows@.subrange(0, rows@.len() as int) =~= rows@);
    while i > 0
        invariant
            prepared_for(*prep, rows@),
            i <= rows@.len(),
            row_at_path(rows@, p@) == row_at_path(rows@.subrange(0, i as int), p@),
        decreases i,
    {
        let ghost pre = rows@.subrange(0, i as int);
        assert(prep.paths@[i - 1]@ == rows@[i - 1].path@);
        if chars_eq(prep.paths[i - 1].as_slice(), p) {
            assert(pre.last() == rows@[i - 1]);
            return Some(i - 1);
        }
        assert(pre.drop_last() =~= rows@.subrange(0, i - 1));
        i = i - 1;
    }
    None
}

/// Optional string argument as a view.
pub open spec fn opt_text(o: Option<&str>) -> Option<Seq<char>> {
    match o {
        Some(s) => Some(s@),
        None => None,
    }
}

/// Assembles the tree from the notebook's document rows. With a root path
/// the tree is rooted at the row stored there (the last such row); without
/// one it is the notebook's virtual root, whose children are the top-level
/// documents. Children are loaded `depth` levels deep, while descendant
/// counts always cover the whole row set.
pub fn assemble(rows: &Vec<DocRow>, notebook_id: &NotebookId, notebook_name: &str, root_path: Option<&str>, depth: Depth) -> (r: TreeNode)
    requires
        rows_wf(rows@),
        counts_fit(rows@),
        root_path matches Some(p) ==> row_at_path(rows@, p@) is Some,
        root_path is None ==> top_total(rows@) <= u64::MAX,
    ensures
        r@ == assembled(rows@, notebook_id@, notebook_name@, opt_text(root_path), depth),
{
    let prep = prepare(rows);
    let nb = notebook_id.to_string();
    let name = owned(notebook_name);
    let budget = depth.as_budget();
    match root_path {
        None => {
            let empty: Vec<char> = Vec::new();
            let top = kid_rows(rows, &prep, empty.as_slice());
            let ghost cs = pick(rows@, top@);
            assert(empty@ =~= Seq::<char>::empty());
            let total = sum_below(rows, &prep, empty.as_slice(), &top);
            let mut children: Vec<TreeNode> = Vec::new();
            if budget >= 1 {
                let mut j: usize = 0;
                assert(cs.take(0) =~= Seq::<DocRow>::empty());
                while j < top.len()
                    invariant
                        prepared_for(prep, rows@),
                        rows_wf(rows@),
                        counts_fit(rows@),
                        cs == pick(rows@, top@),
                        cs == kids_of(rows@, Seq::<char>::empty()),
                        forall|m: int| 0 <= m < top@.len() ==> (#[trigger] top@[m]) < rows@.len(),
                        budget >= 1,
                        j <= top@.len(),
                        tviews(children@) == node_views(rows@, cs.take(j as int), nb@, name@, (budget - 1) as nat),
                    decreases top@.len() - j,
                {
                    let ghost before = children@;
                    let child = build_node(rows, &prep, &nb, &name, top[j], budget - 1);
                    children.push(child);
                    proof {
                        lemma_kid_step(rows@, Seq::<char>::empty(), top@, j as int);
                        assert(children@.drop_last() =~= before);
                    }
                    j = j + 1;
                }
                assert(cs.take(top@.len() as int) =~= cs);
            }
            let r = TreeNode {
                id: String::new(),
                title: String::new(),
                hpath: owned("/"),
                has_children: top.len() > 0,
                doc_count_recursive: total,
                created: String::new(),
                updated: String::new(),
                sort: 0,
                icon: String::new(),
                notebook_id: nb,
                notebook_name: name,
                storage_path: String::new(),
                children,
            };
            proof {
                reveal_strlit("/");
                assert(r.hpath@ =~= seq!['/']);
                assert(tviews(Seq::<TreeNode>::empty()) == Seq::<TreeView>::empty());
            }
            r
        },
        Some(rp) => {
            let pcs = chars_of(rp);
            let idx = find_row_at_path(rows, &prep, pcs.as_slice());
            match idx {
                Some(i) => build_node(rows, &prep, &nb, &name, i, budget),
                None => {
                    proof { assert(false); }
                    TreeNode {
                        id: String::new(),
                        title: String::new(),
                        hpath: String::new(),
                        has_children: false,
                        doc_count_recursive: 0,
                        created: String::new(),
                        updated: String::new(),
                        sort: 0,
                        icon: String::new(),
                        notebook_id: nb,
                        notebook_name: name,
                        storage_path: String::new(),
                        children: Vec::new(),
                    }
                },
            }
        },
    }
}



// ---------------------------------------------------------------------------
// Anchor and subtree query
// ---------------------------------------------------------------------------

/// `true` for the hpaths that address a notebook's virtual root: `/` and
/// the empty string.
pub open spec fn is_root_hpath(h: Seq<char>) -> bool {
    h == "/"@ || h.len() == 0
}

/// The notebook whose virtual root a lookup addresses, if it addresses one:
/// a `ByHpath` lookup whose hpath is `/` or empty.
pub fn virtual_root_notebook(lookup: &DocLookup) -> (r: Option<NotebookId>)
    ensures
        r matches Some(nb) ==> (lookup matches DocLookup::ByHpath { notebook, hpath }
            && nb@ == notebook@ && is_root_hpath(hpath@)),
        r is None ==> !(lookup matches DocLookup::ByHpath { hpath, .. } && is_root_hpath(hpath@)),
{
    match lookup {
        DocLookup::ByHpath { notebook, hpath } => {
            if str_eq(hpath.as_str(), "/") || hpath.as_str().is_empty() {
                Some(notebook.duplicate())
            } else {
                None
            }
        },
        DocLookup::ById(_) => None,
    }
}

/// The subtree query: every document row of the notebook when `root` is
/// empty, else the row stored at `root` and every row under its children key.
pub open spec fn subtree_query(nb: Seq<char>, root: Seq<char>) -> Seq<char> {
    if root.len() == 0 {
        "SELECT id, hpath, path, sort, created, updated, ial FROM blocks WHERE box = '"@ + nb
            + "' AND type = 'd' ORDER BY path LIMIT "@ + dec_digits(INTERNAL_SQL_LIMIT as nat)
    } else {
        "SELECT id, hpath, path, sort, created, updated, ial FROM blocks WHERE box = '"@ + nb
            + "' AND type = 'd' AND (path = '"@ + root + "' OR path LIKE '"@ + strip_sy(root)
            + "/%') ORDER BY path LIMIT "@ + dec_digits(INTERNAL_SQL_LIMIT as nat)
    }
}

/// Builds the SQL statement that loads the rows of a subtree (`root_path`
/// empty: the whole notebook).
pub fn subtree_sql(notebook: &NotebookId, root_path: &str) -> (r: String)
    ensures
        r@ == subtree_query(notebook@, root_path@),
{
    let limit = dec_u64(INTERNAL_SQL_LIMIT as u64);
    let mut s = owned("SELECT id, hpath, path, sort, created, updated, ial FROM blocks WHERE box = '");
    push_str(&mut s, notebook.as_str());
    if root_path.is_empty() {
        push_str(&mut s, "' AND type = 'd' ORDER BY path LIMIT ");
        push_str(&mut s, limit.as_str());
    } else {
        push_str(&mut s, "' AND type = 'd' AND (path = '");
        push_str(&mut s, root_path);
        push_str(&mut s, "' OR path LIKE '");
        let prefix = strip_sy_suffix(root_path);
        push_str(&mut s, prefix.as_str());
        push_str(&mut s, "/%') ORDER BY path LIMIT ");
        push_str(&mut s, limit.as_str());
    }
    s
}

// ---------------------------------------------------------------------------
// Laws
// ---------------------------------------------------------------------------

proof fn lemma_forest_depth_push(s: Seq<TreeView>, x: TreeView)
    ensures
        forest_depth(s.push(x)) == (if forest_depth(s) >= 1 + tree_depth(x) {
            forest_depth(s)
        } else {
            1 + tree_depth(x)
        }),
{
    assert(s.push(x).drop_last() =~= s);
    assert(s.push(x).last() == x);
}

proof fn lemma_node_view_depth(rows: Seq<DocRow>, r: DocRow, nb: Seq<char>, name: Seq<char>, b: nat)
    ensures
        tree_depth(node_view(rows, r, nb, name, b)) <= b,
    decreases b, 0nat,
{
    if b > 0 {
        lemma_node_views_depth(rows, kids_of(rows, strip_sy(r.path@)), nb, name, (b - 1) as nat);
    } else {
        assert(node_view(rows, r, nb, name, b).children == Seq::<TreeView>::empty());
    }
}

proof fn lemma_node_views_depth(rows: Seq<DocRow>, cs: Seq<DocRow>, nb: Seq<char>, name: Seq<char>, b: nat)
    ensures
        forest_depth(node_views(rows, cs, nb, name, b)) <= b + 1,
    decreases b, cs.len() + 1,
{
    if cs.len() > 0 {
        lemma_node_views_depth(rows, cs.drop_last(), nb, name, b);
        lemma_node_view_depth(rows, cs.last(), nb, name, b);
        lemma_forest_depth_push(node_views(rows, cs.drop_last(), nb, name, b), node_view(rows, cs.last(), nb, name, b));
    }
}

/// A tree assembled with `Depth::N(n)` has at most `n` loaded levels below
/// its root; with `n == 0` nothing below the root is loaded.
pub proof fn lemma_depth_slice(rows: Seq<DocRow>, nb: Seq<char>, name: Seq<char>, root: Option<Seq<char>>, n: u32)
    ensures
        tree_depth(assembled(rows, nb, name, root, Depth::N(n))) <= n,
        n == 0 ==> assembled(rows, nb, name, root, Depth::N(n)).children.len() == 0,
{
    match root {
        None => {
            if n >= 1 {
                lemma_node_views_depth(rows, kids_of(rows, Seq::empty()), nb, name, (n - 1) as nat);
            }
        },
        Some(p) => {
            lemma_node_view_depth(rows, row_at_path(rows, p).unwrap(), nb, name, n as nat);
        },
    }
}

/// The depth budget decides only which children are loaded: whether a node
/// has children and how many descendants it counts come from the full row
/// set, whatever the depth.
pub proof fn lemma_counts_ignore_depth(rows: Seq<DocRow>, nb: Seq<char>, name: Seq<char>, root: Option<Seq<char>>, d1: Depth, d2: Depth)
    ensures
        assembled(rows, nb, name, root, d1).doc_count_recursive == assembled(rows, nb, name, root, d2).doc_count_recursive,
        assembled(rows, nb, name, root, d1).has_children == assembled(rows, nb, name, root, d2).has_children,
{
}

proof fn lemma_descendants_at_least(rows: Seq<DocRow>, k: Seq<char>, cs: Seq<DocRow>)
    ensures
        descendants_in(rows, k, cs) >= cs.len(),
    decreases cs.len(),
{
    if cs.len() > 0 {
        lemma_descendants_at_least(rows, k, cs.drop_last());
    }
}

/// A node has children exactly when it counts at least one descendant.
pub proof fn lemma_has_children_iff_descendants(rows: Seq<DocRow>, nb: Seq<char>, name: Seq<char>, root: Option<Seq<char>>, d: Depth)
    ensures
        assembled(rows, nb, name, root, d).has_children <==> assembled(rows, nb, name, root, d).doc_count_recursive > 0,
{
    let k = match root {
        None => Seq::<char>::empty(),
        Some(p) => strip_sy(row_at_path(rows, p).unwrap().path@),
    };
    lemma_descendants_at_least(rows, k, kids_of(rows, k));
}

/// Storage paths strictly ascending.
pub open spec fn paths_ascending(s: Seq<DocRow>) -> bool {
    forall|i: int, j: int| 0 <= i < j < s.len() ==> seq_lt(#[trigger] s[i].path@, #[trigger] s[j].path@)
}

proof fn lemma_sorted_insert_ascending(s: Seq<DocRow>, r: DocRow)
    requires
        paths_ascending(s),
    ensures
        paths_ascending(sorted_insert(s, r)),
    decreases s.len(),
{
    if s.len() == 0 {
    } else if seq_lt(r.path@, s[0].path@) {
        let t = sorted_insert(s, r);
        assert forall|i: int, j: int| 0 <= i < j < t.len() implies seq_lt(#[trigger] t[i].path@, #[trigger] t[j].path@) by {
            if i == 0 {
                assert(t[j] == s[j - 1]);
                if j - 1 > 0 {
                    lemma_seq_lt_transitive(r.path@, s[0].path@, s[j - 1].path@);
                }
            } else {
                assert(t[i] == s[i - 1] && t[j] == s[j - 1]);
            }
        }
    } else if r.path@ == s[0].path@ {
        let t = sorted_insert(s, r);
        assert forall|i: int, j: int| 0 <= i < j < t.len() implies seq_lt(#[trigger] t[i].path@, #[trigger] t[j].path@) by {
            assert(t[j] == s[j]);
            if i > 0 {
                assert(t[i] == s[i]);
            }
        }
    } else {
        lemma_seq_lt_total(r.path@, s[0].path@);
        let rest = s.drop_first();
        assert(paths_ascending(rest)) by {
            assert forall|i: int, j: int| 0 <= i < j < rest.len() implies seq_lt(#[trigger] rest[i].path@, #[trigger] rest[j].path@) by {
                assert(rest[i] == s[i + 1] && rest[j] == s[j + 1]);
            }
        }
        lemma_sorted_insert_ascending(rest, r);
        lemma_sorted_insert_members(rest, r);
        let u = sorted_insert(rest, r);
        let t = sorted_insert(s, r);
        assert(t == seq![s[0]] + u);
        assert forall|i: int, j: int| 0 <= i < j < t.len() implies seq_lt(#[trigger] t[i].path@, #[trigger] t[j].path@) by {
            if i == 0 {
                assert(t[j] == u[j - 1]);
                assert(u.contains(u[j - 1]));
                if u[j - 1] != r {
                    assert(rest.contains(u[j - 1]));
                    let m = choose|m: int| 0 <= m < rest.len() && rest[m] == u[j - 1];
                    assert(s[m + 1] == u[j - 1]);
                }
            } else {
                assert(t[i] == u[i - 1] && t[j] == u[j - 1]);
            }
        }
    }
}

proof fn lemma_kids_ascending(rows: Seq<DocRow>, k: Seq<char>, n: int)
    ensures
        paths_ascending(kids_upto(rows, k, n)),
    decreases n,
{
    if n <= 0 || n > rows.len() {
    } else {
        lemma_kids_ascending(rows, k, n - 1);
        if parent_key(rows[n - 1].path@) == k {
            lemma_sorted_insert_ascending(kids_upto(rows, k, n - 1), rows[n - 1]);
        }
    }
}

proof fn lemma_node_views_len(rows: Seq<DocRow>, cs: Seq<DocRow>, nb: Seq<char>, name: Seq<char>, b: nat)
    ensures
        node_views(rows, cs, nb, name, b).len() == cs.len(),
    decreases cs.len(),
{
    if cs.len() > 0 {
        lemma_node_views_len(rows, cs.drop_last(), nb, name, b);
    }
}

proof fn lemma_node_views_index(rows: Seq<DocRow>, cs: Seq<DocRow>, nb: Seq<char>, name: Seq<char>, b: nat, i: int)
    requires
        0 <= i < cs.len(),
    ensures
        node_views(rows, cs, nb, name, b).len() == cs.len(),
        node_views(rows, cs, nb, name, b)[i] == node_view(rows, cs[i], nb, name, b),
    decreases cs.len(),
{
    lemma_node_views_len(rows, cs, nb, name, b);
    lemma_node_views_len(rows, cs.drop_last(), nb, name, b);
    if i < cs.len() - 1 {
        lemma_node_views_index(rows, cs.drop_last(), nb, name, b, i);
    }
}

/// The loaded children of an assembled tree come in strictly ascending
/// storage-path order, so no storage path occurs twice among them.
pub proof fn lemma_children_ascending(rows: Seq<DocRow>, nb: Seq<char>, name: Seq<char>, root: Option<Seq<char>>, d: Depth)
    ensures
        forall|i: int, j: int| 0 <= i < j < assembled(rows, nb, name, root, d).children.len() ==> seq_lt(
            #[trigger] assembled(rows, nb, name, root, d).children[i].storage_path,
            #[trigger] assembled(rows, nb, name, root, d).children[j].storage_path,
        ),
{
    let t = assembled(rows, nb, name, root, d);
    let k = match root {
        None => Seq::<char>::empty(),
        Some(p) => strip_sy(row_at_path(rows, p).unwrap().path@),
    };
    let cs = kids_of(rows, k);
    lemma_kids_ascending(rows, k, rows.len() as int);
    let b = budget_of(d);
    let cb: nat = match root {
        None => (b - 1) as nat,
        Some(p) => (b - 1) as nat,
    };
    assert forall|i: int, j: int| 0 <= i < j < t.children.len() implies seq_lt(
        #[trigger] t.children[i].storage_path,
        #[trigger] t.children[j].storage_path,
    ) by {
        lemma_node_views_len(rows, cs, nb, name, cb);
        assert(b >= 1);
        lemma_node_views_index(rows, cs, nb, name, cb, i);
        lemma_node_views_index(rows, cs, nb, name, cb, j);
    }
}

/// The key of the rows below a tree's root: none for the notebook root,
/// else the root row's storage path without `.sy`.
pub open spec fn root_key(rows: Seq<DocRow>, root: Option<Seq<char>>) -> Seq<char> {
    match root {
        None => Seq::empty(),
        Some(p) => strip_sy(row_at_path(rows, p).unwrap().path@),
    }
}

/// `t`, standing for the rows below `key` with `b` levels left to load,
/// carries the notebook; has children exactly when some row lies directly
/// below `key`; counts the descendants of `key` (see
/// [`lemma_counts_are_rows_below`]); and, while levels are left, loads exactly those direct
/// child rows (in the order of [`kids_of`], ascending by storage path),
/// each in turn standing for the rows below its own path with one level
/// fewer. With no level left it loads nothing.
pub open spec fn loads_children(rows: Seq<DocRow>, nb: Seq<char>, name: Seq<char>, key: Seq<char>, t: TreeView, b: nat) -> bool
    decreases b,
{
    let kids = kids_of(rows, key);
    &&& t.notebook_id == nb
    &&& t.notebook_name == name
    &&& t.has_children == (kids.len() > 0)
    &&& t.doc_count_recursive == descendant_count(rows, key)
    &&& b == 0 ==> t.children.len() == 0
    &&& b > 0 ==> {
        &&& t.children.len() == kids.len()
        &&& forall|i: int| 0 <= i < kids.len() ==> {
            &&& (#[trigger] t.children[i]).storage_path == kids[i].path@
            &&& t.children[i].id == kids[i].id@
            &&& loads_children(rows, nb, name, strip_sy(kids[i].path@), t.children[i], (b - 1) as nat)
        }
    }
}

proof fn lemma_node_view_loads(rows: Seq<DocRow>, r: DocRow, nb: Seq<char>, name: Seq<char>, b: nat)
    ensures
        loads_children(rows, nb, name, strip_sy(r.path@), node_view(rows, r, nb, name, b), b),
    decreases b,
{
    let kids = kids_of(rows, strip_sy(r.path@));
    let t = node_view(rows, r, nb, name, b);
    if b > 0 {
        lemma_node_views_len(rows, kids, nb, name, (b - 1) as nat);
        assert forall|i: int| 0 <= i < kids.len() implies {
            &&& (#[trigger] t.children[i]).storage_path == kids[i].path@
            &&& t.children[i].id == kids[i].id@
            &&& loads_children(rows, nb, name, strip_sy(kids[i].path@), t.children[i], (b - 1) as nat)
        } by {
            lemma_node_views_index(rows, kids, nb, name, (b - 1) as nat, i);
            lemma_node_view_loads(rows, kids[i], nb, name, (b - 1) as nat);
        }
    }
}

/// Every node of an assembled tree carries the notebook, and a node `k`
/// levels below the root (with `k` under the depth budget) loads exactly
/// the rows directly below it, while a node at the budget loads nothing;
/// see [`loads_children`].
pub proof fn lemma_loaded_children(rows: Seq<DocRow>, nb: Seq<char>, name: Seq<char>, root: Option<Seq<char>>, d: Depth)
    ensures
        loads_children(rows, nb, name, root_key(rows, root), assembled(rows, nb, name, root, d), budget_of(d)),
{
    match root {
        Some(p) => {
            lemma_node_view_loads(rows, row_at_path(rows, p).unwrap(), nb, name, budget_of(d));
        },
        None => {
            let b = budget_of(d);
            let kids = kids_of(rows, Seq::empty());
            let t = virtual_root(rows, nb, name, b);
            if b > 0 {
                lemma_node_views_len(rows, kids, nb, name, (b - 1) as nat);
                assert forall|i: int| 0 <= i < kids.len() implies {
                    &&& (#[trigger] t.children[i]).storage_path == kids[i].path@
                    &&& t.children[i].id == kids[i].id@
                    &&& loads_children(rows, nb, name, strip_sy(kids[i].path@), t.children[i], (b - 1) as nat)
                } by {
                    lemma_node_views_index(rows, kids, nb, name, (b - 1) as nat, i);
                    lemma_node_view_loads(rows, kids[i], nb, name, (b - 1) as nat);
                }
            }
        },
    }
}

// ---------------------------------------------------------------------------
// Counts against the rows under a path
// ---------------------------------------------------------------------------

/// `p` is stored below key `k`: it starts with `k` and a `/`.
pub open spec fn below(k: Seq<char>, p: Seq<char>) -> bool {
    has_prefix(p, k.push('/'))
}

/// A document storage path: `/`, a name, `.sy`.
pub open spec fn doc_path(p: Seq<char>) -> bool {
    &&& p.len() >= 4
    &&& p[0] == '/'
    &&& has_suffix(p, sy_suffix())
}

/// The rows of one notebook's file tree: every path a document path, no
/// path twice, and every nested document's parent folder is a document.
pub open spec fn tree_rows(rows: Seq<DocRow>) -> bool {
    &&& forall|i: int| 0 <= i < rows.len() ==> doc_path(#[trigger] rows[i].path@)
    &&& forall|i: int, j: int| 0 <= i < j < rows.len() ==> #[trigger] rows[i].path@ != #[trigger] rows[j].path@
    &&& forall|i: int| 0 <= i < rows.len() && parent_key(#[trigger] rows[i].path@).len() > 0 ==> exists|j: int|
        0 <= j < rows.len() && strip_sy(rows[j].path@) == parent_key(rows[i].path@)
}

/// Indices of the rows stored below `k`.
pub open spec fn rows_below(rows: Seq<DocRow>, k: Seq<char>) -> Set<int> {
    Set::new(|i: int| 0 <= i < rows.len() && below(k, rows[i].path@))
}

proof fn lemma_last_slash(p: Seq<char>)
    ensures
        match last_index_of(p, '/') {
            Some(i) => 0 <= i < p.len() && p[i] == '/' && forall|m: int| i < m < p.len() ==> p[m] != '/',
            None => forall|m: int| 0 <= m < p.len() ==> p[m] != '/',
        },
    decreases p.len(),
{
    if p.len() > 0 {
        lemma_last_slash(p.drop_last());
        if p.last() != '/' {
            assert forall|m: int| 0 <= m < p.len() - 1 implies p[m] == p.drop_last()[m] by {}
        }
    }
}

/// A document path splits at its last `/`: the parent key, `/`, then a
/// name with no `/` that ends in `.sy`; its stripped path is the parent key,
/// `/` and that name without `.sy`.
proof fn lemma_path_split(p: Seq<char>)
    requires
        doc_path(p),
    ensures
        below(parent_key(p), p),
        below(parent_key(p), strip_sy(p)),
        forall|m: int| parent_key(p).len() < m < p.len() ==> p[m] != '/',
        parent_key(p).len() + 4 <= p.len(),
        strip_sy(p) == p.subrange(0, p.len() - 3),
        strip_sy(p).len() + 3 == p.len(),
        strip_sy(p).len() > parent_key(p).len(),
        p[strip_sy(p).len() as int] == '.',
{
    lemma_last_slash(p);
    let n = p.len();
    assert(p.subrange(n - 3, n as int) =~= sy_suffix());
    assert(p[n - 3] == '.' && p[n - 2] == 's' && p[n - 1] == 'y');
    let i = last_index_of(p, '/').unwrap();
    assert(p[0] == '/');
    assert(i < n - 3);
    let k = parent_key(p);
    if i == 0 {
        assert(k =~= Seq::<char>::empty());
        assert(p.subrange(0, 1) =~= k.push('/'));
    } else {
        assert(k =~= p.subrange(0, i));
        assert(p.subrange(0, i + 1) =~= k.push('/'));
    }
    let st = strip_sy(p);
    assert(st =~= p.subrange(0, n - 3));
    assert(st.subrange(0, k.len() + 1int) =~= k.push('/'));
}

proof fn lemma_below_at(k: Seq<char>, q: Seq<char>)
    requires
        below(k, q),
    ensures
        q.len() > k.len(),
        q[k.len() as int] == '/',
        forall|m: int| 0 <= m < k.len() ==> q[m] == k[m],
{
    let t = q.subrange(0, k.len() + 1int);
    assert(t == k.push('/'));
    assert(t[k.len() as int] == '/');
    assert forall|m: int| 0 <= m < k.len() implies q[m] == k[m] by {
        assert(t[m] == q[m]);
        assert(k.push('/')[m] == k[m]);
    }
}

proof fn lemma_below_trans(k: Seq<char>, a: Seq<char>, q: Seq<char>)
    requires
        below(k, a),
        below(a, q),
    ensures
        below(k, q),
{
    assert(q.subrange(0, k.len() + 1int) =~= a.subrange(0, k.len() + 1int));
}

/// A document path is not below its own stripped path.
proof fn lemma_not_below_self(p: Seq<char>)
    requires
        doc_path(p),
    ensures
        !below(strip_sy(p), p),
{
    lemma_path_split(p);
    let a = strip_sy(p);
    if below(a, p) {
        assert(p.subrange(0, a.len() + 1int)[a.len() as int] == '/');
    }
}

/// Two different documents in one folder: nothing below the one is below
/// the other, and the other is not below the one.
proof fn lemma_siblings_apart(p1: Seq<char>, p2: Seq<char>, q: Seq<char>)
    requires
        doc_path(p1),
        doc_path(p2),
        parent_key(p1) == parent_key(p2),
        p1 != p2,
        below(strip_sy(p1), q),
    ensures
        !below(strip_sy(p2), q),
        q != p2,
{
    lemma_path_split(p1);
    lemma_path_split(p2);
    let k = parent_key(p1);
    let a = strip_sy(p1);
    let b = strip_sy(p2);
    lemma_below_at(a, q);
    if below(b, q) {
        lemma_below_at(b, q);
        if a.len() < b.len() {
            assert(b[a.len() as int] == q[a.len() as int]);
            assert(p2[a.len() as int] == b[a.len() as int]);
        } else if b.len() < a.len() {
            assert(a[b.len() as int] == q[b.len() as int]);
            assert(p1[b.len() as int] == a[b.len() as int]);
        } else {
            assert(a =~= q.subrange(0, a.len() as int));
            assert(b =~= q.subrange(0, b.len() as int));
            assert(p1 =~= a + sy_suffix());
            assert(p2 =~= b + sy_suffix());
        }
    }
    if q == p2 {
        assert(p2[a.len() as int] == '/');
        assert(a.len() < p2.len());
    }
}

/// Every row below `k` is a direct child of `k` or lies below one.
proof fn lemma_below_covered(rows: Seq<DocRow>, k: Seq<char>, i: int)
    requires
        tree_rows(rows),
        0 <= i < rows.len(),
        below(k, rows[i].path@),
    ensures
        exists|j: int| 0 <= j < rows.len() && parent_key(rows[j].path@) == k
            && (j == i || below(strip_sy(rows[j].path@), rows[i].path@)),
    decreases rows[i].path@.len(),
{
    let p = rows[i].path@;
    assert(doc_path(p));
    lemma_path_split(p);
    lemma_last_slash(p);
    let pk = parent_key(p);
    lemma_below_at(k, p);
    if pk == k {
        assert(0 <= i < rows.len() && parent_key(rows[i].path@) == k);
    } else {
        // the parent folder is longer than `k` and lies below it
        let li = last_index_of(p, '/').unwrap();
        assert(li >= k.len());
        if pk.len() == 0 {
            assert(li == 0);
            assert(k.len() == 0);
            assert(k =~= pk);
        }
        assert(pk.len() > 0);
        assert(pk =~= p.subrange(0, li));
        if li == k.len() {
            assert(k =~= p.subrange(0, k.len() as int));
        }
        assert(pk.len() > k.len());
        let j0 = choose|j: int| 0 <= j < rows.len() && strip_sy(rows[j].path@) == parent_key(rows[i].path@);
        let q = rows[j0].path@;
        assert(doc_path(q));
        lemma_path_split(q);
        assert(below(k, q)) by {
            assert(q.subrange(0, k.len() + 1int) =~= p.subrange(0, k.len() + 1int));
        }
        lemma_below_covered(rows, k, j0);
        let j = choose|j: int| 0 <= j < rows.len() && parent_key(rows[j].path@) == k
            && (j == j0 || below(strip_sy(rows[j].path@), rows[j0].path@));
        if j == j0 {
            assert(below(strip_sy(rows[j].path@), p));
        } else {
            let a = strip_sy(rows[j].path@);
            lemma_below_at(a, q);
            assert(a.len() < pk.len()) by {
                if a.len() >= pk.len() {
                    assert(q[pk.len() + 0int] == '.');
                    assert(q[pk.len() + 1int] == 's');
                    assert(q[pk.len() + 2int] == 'y');
                }
            }
            assert(p.subrange(0, a.len() + 1int) =~= a.push('/'));
        }
        assert(0 <= j < rows.len() && parent_key(rows[j].path@) == k
            && (j == i || below(strip_sy(rows[j].path@), rows[i].path@)));
    }
}

/// Inserting keeps every path already present and adds `r`.
proof fn lemma_sorted_insert_keeps(s: Seq<DocRow>, r: DocRow)
    ensures
        sorted_insert(s, r).contains(r),
        forall|m: int| 0 <= m < s.len() ==> exists|q: int| 0 <= q < sorted_insert(s, r).len()
            && sorted_insert(s, r)[q].path@ == #[trigger] s[m].path@,
    decreases s.len(),
{
    let t = sorted_insert(s, r);
    if s.len() == 0 {
        assert(t[0] == r);
    } else if seq_lt(r.path@, s[0].path@) {
        assert(t[0] == r);
        assert forall|m: int| 0 <= m < s.len() implies exists|q: int| 0 <= q < t.len()
            && t[q].path@ == #[trigger] s[m].path@ by {
            assert(t[m + 1] == s[m]);
        }
    } else if r.path@ == s[0].path@ {
        assert(t[0] == r);
        assert forall|m: int| 0 <= m < s.len() implies exists|q: int| 0 <= q < t.len()
            && t[q].path@ == #[trigger] s[m].path@ by {
            if m == 0 {
                assert(t[0].path@ == s[0].path@);
            } else {
                assert(t[m] == s[m]);
            }
        }
    } else {
        let rest = s.drop_first();
        let u = sorted_insert(rest, r);
        lemma_sorted_insert_keeps(rest, r);
        assert(t == seq![s[0]] + u);
        let q0 = choose|q: int| 0 <= q < u.len() && u[q] == r;
        assert(t[q0 + 1] == r);
        assert forall|m: int| 0 <= m < s.len() implies exists|q: int| 0 <= q < t.len()
            && t[q].path@ == #[trigger] s[m].path@ by {
            if m == 0 {
                assert(t[0] == s[0]);
            } else {
                assert(rest[m - 1] == s[m]);
                let q = choose|q: int| 0 <= q < u.len() && u[q].path@ == #[trigger] rest[m - 1].path@;
                assert(t[q + 1] == u[q]);
            }
        }
    }
}

/// Every row whose parent key is `k` has its path among the children of `k`.
proof fn lemma_kids_complete(rows: Seq<DocRow>, k: Seq<char>, n: int)
    requires
        0 <= n <= rows.len(),
    ensures
        forall|j: int| 0 <= j < n && parent_key(rows[j].path@) == k ==> exists|m: int|
            0 <= m < kids_upto(rows, k, n).len() && kids_upto(rows, k, n)[m].path@ == #[trigger] rows[j].path@,
    decreases n,
{
    if n > 0 {
        lemma_kids_complete(rows, k, n - 1);
        let prev = kids_upto(rows, k, n - 1);
        let cur = kids_upto(rows, k, n);
        if parent_key(rows[n - 1].path@) == k {
            lemma_sorted_insert_keeps(prev, rows[n - 1]);
            assert forall|j: int| 0 <= j < n && parent_key(rows[j].path@) == k implies exists|m: int|
                0 <= m < cur.len() && cur[m].path@ == #[trigger] rows[j].path@ by {
                if j == n - 1 {
                    let q = choose|q: int| 0 <= q < cur.len() && cur[q] == rows[n - 1];
                } else {
                    let m = choose|m: int| 0 <= m < prev.len() && prev[m].path@ == #[trigger] rows[j].path@;
                    let q = choose|q: int| 0 <= q < cur.len() && cur[q].path@ == #[trigger] prev[m].path@;
                }
            }
        }
    }
}

/// Indices of the rows that are one of `cs` or lie below one of them.
pub open spec fn rows_in_or_below(rows: Seq<DocRow>, cs: Seq<DocRow>) -> Set<int> {
    Set::new(|i: int| 0 <= i < rows.len() && exists|m: int| 0 <= m < cs.len()
        && (rows[i].path@ == cs[m].path@ || below(strip_sy(cs[m].path@), #[trigger] rows[i].path@)))
}

proof fn lemma_index_sets_finite(rows: Seq<DocRow>, a: Set<int>)
    requires
        forall|i: int| a.contains(i) ==> 0 <= i < rows.len(),
    ensures
        a.finite(),
        a.len() <= rows.len(),
{
    vstd::set_lib::lemma_int_range(0, rows.len() as int);
    assert(a.subset_of(vstd::set_lib::set_int_range(0, rows.len() as int)));
    vstd::set_lib::lemma_len_subset(a, vstd::set_lib::set_int_range(0, rows.len() as int));
}

/// Children of one folder: rows, all in that folder, no path twice.
pub open spec fn folder_kids(rows: Seq<DocRow>, k: Seq<char>, cs: Seq<DocRow>) -> bool {
    &&& forall|m: int| 0 <= m < cs.len() ==> rows.contains(#[trigger] cs[m]) && parent_key(cs[m].path@) == k
    &&& forall|m: int, q: int| 0 <= m < q < cs.len() ==> #[trigger] cs[m].path@ != #[trigger] cs[q].path@
}

proof fn lemma_count_in(rows: Seq<DocRow>, k: Seq<char>, cs: Seq<DocRow>)
    requires
        tree_rows(rows),
        folder_kids(rows, k, cs),
    ensures
        rows_in_or_below(rows, cs).finite(),
        descendants_in(rows, k, cs) == rows_in_or_below(rows, cs).len(),
    decreases key_metric(rows, k), 0nat, cs.len(),
{
    let all = rows_in_or_below(rows, cs);
    lemma_index_sets_finite(rows, all);
    if cs.len() == 0 {
        assert(all =~= Set::<int>::empty());
    } else {
        let dl = cs.drop_last();
        let c = cs.last();
        assert(folder_kids(rows, k, dl)) by {
            assert forall|m: int| 0 <= m < dl.len() implies rows.contains(#[trigger] dl[m]) && parent_key(dl[m].path@) == k by {
                assert(dl[m] == cs[m]);
            }
            assert forall|m: int, q: int| 0 <= m < q < dl.len() implies #[trigger] dl[m].path@ != #[trigger] dl[q].path@ by {
                assert(dl[m] == cs[m] && dl[q] == cs[q]);
            }
        }
        lemma_count_in(rows, k, dl);
        assert(rows.contains(cs[cs.len() - 1]));
        let jc = choose|j: int| 0 <= j < rows.len() && rows[j] == c;
        assert(doc_path(rows[jc].path@));
        let ck = strip_sy(c.path@);
        lemma_path_split(c.path@);
        lemma_max_path_len(rows, jc);
        assert(k.len() < ck.len() && ck.len() <= max_path_len(rows));
        lemma_count(rows, ck);
        let one = Set::new(|i: int| 0 <= i < rows.len() && rows[i].path@ == c.path@);
        assert(one =~= set![jc]) by {
            assert forall|i: int| one.contains(i) implies i == jc by {
                if i < jc {
                    assert(rows[i].path@ != rows[jc].path@);
                } else if jc < i {
                    assert(rows[jc].path@ != rows[i].path@);
                }
            }
        }
        let under = rows_below(rows, ck);
        lemma_index_sets_finite(rows, under);
        lemma_not_below_self(c.path@);
        assert(one.disjoint(under));
        vstd::set_lib::lemma_set_disjoint_lens(one, under);
        let part = one + under;
        let prev = rows_in_or_below(rows, dl);
        assert(prev.disjoint(part)) by {
            assert forall|i: int| prev.contains(i) implies !part.contains(i) by {
                let q = rows[i].path@;
                let m = choose|m: int| 0 <= m < dl.len()
                    && (q == dl[m].path@ || below(strip_sy(dl[m].path@), #[trigger] rows[i].path@));
                assert(dl[m] == cs[m]);
                assert(cs[m].path@ != c.path@);
                assert(rows.contains(cs[m]));
                let jm = choose|j: int| 0 <= j < rows.len() && rows[j] == cs[m];
                assert(doc_path(rows[jm].path@));
                if q == dl[m].path@ {
                    if below(ck, q) {
                        lemma_siblings_apart(c.path@, cs[m].path@, q);
                    }
                } else {
                    lemma_siblings_apart(cs[m].path@, c.path@, q);
                }
            }
        }
        assert(all =~= prev + part) by {
            assert forall|i: int| all.contains(i) implies (prev + part).contains(i) by {
                let m = choose|m: int| 0 <= m < cs.len()
                    && (rows[i].path@ == cs[m].path@ || below(strip_sy(cs[m].path@), #[trigger] rows[i].path@));
                if m < cs.len() - 1 {
                    assert(dl[m] == cs[m]);
                }
            }
            assert forall|i: int| (prev + part).contains(i) implies all.contains(i) by {
                if prev.contains(i) {
                    let m = choose|m: int| 0 <= m < dl.len()
                        && (rows[i].path@ == dl[m].path@ || below(strip_sy(dl[m].path@), #[trigger] rows[i].path@));
                    assert(dl[m] == cs[m]);
                } else {
                    assert(rows[i].path@ == cs[cs.len() - 1].path@ || below(strip_sy(cs[cs.len() - 1].path@), rows[i].path@));
                }
            }
        }
        lemma_index_sets_finite(rows, prev);
        vstd::set_lib::lemma_set_disjoint_lens(prev, part);
    }
}

/// A folder's count is the number of rows stored below it.
proof fn lemma_count(rows: Seq<DocRow>, k: Seq<char>)
    requires
        tree_rows(rows),
    ensures
        rows_below(rows, k).finite(),
        descendant_count(rows, k) == rows_below(rows, k).len(),
    decreases key_metric(rows, k), 1nat, 0nat,
{
    let kids = kids_of(rows, k);
    lemma_kids_members(rows, k, rows.len() as int);
    lemma_kids_ascending(rows, k, rows.len() as int);
    lemma_kids_complete(rows, k, rows.len() as int);
    assert(folder_kids(rows, k, kids)) by {
        assert forall|m: int| 0 <= m < kids.len() implies rows.contains(#[trigger] kids[m]) && parent_key(kids[m].path@) == k by {
            assert(kids.contains(kids[m]));
        }
        assert forall|m: int, q: int| 0 <= m < q < kids.len() implies #[trigger] kids[m].path@ != #[trigger] kids[q].path@ by {
            assert(seq_lt(kids[m].path@, kids[q].path@));
            lemma_seq_lt_irreflexive(kids[m].path@);
        }
    }
    lemma_count_in(rows, k, kids);
    let a = rows_in_or_below(rows, kids);
    let b = rows_below(rows, k);
    assert(a =~= b) by {
        assert forall|i: int| a.contains(i) implies b.contains(i) by {
            let m = choose|m: int| 0 <= m < kids.len()
                && (rows[i].path@ == kids[m].path@ || below(strip_sy(kids[m].path@), #[trigger] rows[i].path@));
            assert(rows.contains(kids[m]));
            let j = choose|j: int| 0 <= j < rows.len() && rows[j] == kids[m];
            assert(doc_path(rows[j].path@));
            lemma_path_split(kids[m].path@);
            if rows[i].path@ != kids[m].path@ {
                lemma_below_trans(k, strip_sy(kids[m].path@), rows[i].path@);
            }
        }
        assert forall|i: int| b.contains(i) implies a.contains(i) by {
            lemma_below_covered(rows, k, i);
            let j = choose|j: int| 0 <= j < rows.len() && parent_key(rows[j].path@) == k
                && (j == i || below(strip_sy(rows[j].path@), rows[i].path@));
            let m = choose|m: int| 0 <= m < kids.len() && kids[m].path@ == #[trigger] rows[j].path@;
            assert(rows[i].path@ == kids[m].path@ || below(strip_sy(kids[m].path@), rows[i].path@));
        }
    }
}

/// Every folder's descendant count is the number of rows stored below it,
/// and the notebook root counts every row.
pub proof fn lemma_counts_are_rows_below(rows: Seq<DocRow>, k: Seq<char>)
    requires
        tree_rows(rows),
    ensures
        descendant_count(rows, k) == rows_below(rows, k).len(),
        top_total(rows) == rows.len(),
{
    lemma_count(rows, k);
    lemma_count(rows, Seq::empty());
    assert(top_total(rows) == descendant_count(rows, Seq::empty()));
    let all = rows_below(rows, Seq::<char>::empty());
    assert(all =~= vstd::set_lib::set_int_range(0, rows.len() as int)) by {
        assert forall|i: int| 0 <= i < rows.len() implies all.contains(i) by {
            assert(doc_path(rows[i].path@));
            assert(rows[i].path@.subrange(0, 1) =~= Seq::<char>::empty().push('/'));
        }
    }
    vstd::set_lib::lemma_int_range(0, rows.len() as int);
}

/// In an assembled tree of a notebook's rows, the root counts exactly the
/// rows stored below it, all rows for the notebook root; with
/// [`lemma_loaded_children`] the same holds of every loaded node.
pub proof fn lemma_tree_counts(rows: Seq<DocRow>, nb: Seq<char>, name: Seq<char>, root: Option<Seq<char>>, d: Depth)
    requires
        tree_rows(rows),
    ensures
        assembled(rows, nb, name, root, d).doc_count_recursive == rows_below(rows, root_key(rows, root)).len(),
        root is None ==> assembled(rows, nb, name, root, d).doc_count_recursive == rows.len(),
{
    lemma_loaded_children(rows, nb, name, root, d);
    lemma_counts_are_rows_below(rows, root_key(rows, root));
}

/// Two trees agree, `n` levels down, on what the depth does not decide:
/// each node's count and whether it has children, and each loaded child's
/// storage path and id.
pub open spec fn agree(s: TreeView, t: TreeView, n: nat) -> bool
    decreases n,
{
    &&& s.doc_count_recursive == t.doc_count_recursive
    &&& s.has_children == t.has_children
    &&& n > 0 ==> forall|i: int| 0 <= i < s.children.len() && 0 <= i < t.children.len() ==> {
        &&& (#[trigger] s.children[i]).storage_path == t.children[i].storage_path
        &&& s.children[i].id == t.children[i].id
        &&& agree(s.children[i], t.children[i], (n - 1) as nat)
    }
}

proof fn lemma_loads_agree(rows: Seq<DocRow>, nb: Seq<char>, name: Seq<char>, key: Seq<char>, s: TreeView, t: TreeView, b1: nat, b2: nat, n: nat)
    requires
        loads_children(rows, nb, name, key, s, b1),
        loads_children(rows, nb, name, key, t, b2),
        n <= b1,
        n <= b2,
    ensures
        agree(s, t, n),
    decreases n,
{
    if n > 0 {
        let kids = kids_of(rows, key);
        assert forall|i: int| 0 <= i < s.children.len() && 0 <= i < t.children.len() implies {
            &&& (#[trigger] s.children[i]).storage_path == t.children[i].storage_path
            &&& s.children[i].id == t.children[i].id
            &&& agree(s.children[i], t.children[i], (n - 1) as nat)
        } by {
            lemma_loads_agree(rows, nb, name, strip_sy(kids[i].path@), s.children[i], t.children[i],
                (b1 - 1) as nat, (b2 - 1) as nat, (n - 1) as nat);
        }
    }
}

/// The same rows assembled with two depths give trees that agree at every
/// node both load: the same root, and below it the same children (by
/// storage path and id), each with the same count and the same
/// `has_children`. With [`lemma_counts_are_rows_below`], each such count is
/// the number of rows stored below the node's path.
pub proof fn lemma_depths_agree(rows: Seq<DocRow>, nb: Seq<char>, name: Seq<char>, root: Option<Seq<char>>, d1: Depth, d2: Depth)
    ensures
        ({
            let s = assembled(rows, nb, name, root, d1);
            let t = assembled(rows, nb, name, root, d2);
            let n = if budget_of(d1) <= budget_of(d2) { budget_of(d1) } else { budget_of(d2) };
            &&& s.storage_path == t.storage_path
            &&& s.id == t.id
            &&& agree(s, t, n)
        }),
{
    lemma_loaded_children(rows, nb, name, root, d1);
    lemma_loaded_children(rows, nb, name, root, d2);
    let n = if budget_of(d1) <= budget_of(d2) { budget_of(d1) } else { budget_of(d2) };
    lemma_loads_agree(rows, nb, name, root_key(rows, root), assembled(rows, nb, name, root, d1),
        assembled(rows, nb, name, root, d2), budget_of(d1), budget_of(d2), n);
}

} // verus!


