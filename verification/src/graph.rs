//! Reference-graph neighbourhood of a block, walked breadth-first.
//!
//! The walk is a state machine: [`GraphWalk::next_step`] says which query
//! the caller must run next, [`GraphWalk::absorb`] takes the rows of a
//! reference query, and [`GraphWalk::finish`] takes the rows of the final
//! node query and yields the [`Graph`]. Each level queries the outgoing
//! references of the current frontier, then (when the direction asks for
//! it and the edge budget is not spent) the incoming ones. Edges are kept
//! once per `(source, target, anchor)`; at most [`EDGE_LIMIT`] edges and
//! [`NODE_LIMIT`] visited blocks are kept, and hitting either limit marks
//! the graph truncated.

use vstd::prelude::*;

use crate::block::id_texts;
use crate::doc_meta::{quote_id_list, quoted_id_list};
use crate::ids::{is_id_text, BlockId};
use crate::tag::{preview, truncate};
use crate::text::{
    chars_lt, chars_of, lemma_seq_lt_total,
    lemma_seq_lt_irreflexive, lemma_seq_lt_transitive, owned, push_str, seq_lt, str_eq,
};

verus! {

/// Most blocks a walk visits.
pub const NODE_LIMIT: usize = 500;

/// Most edges a walk keeps.
pub const EDGE_LIMIT: usize = 1000;

/// Characters kept in a node's markdown preview.
pub const NODE_PREVIEW_LEN: usize = 100;

/// Which references to follow.
#[derive(Debug, Clone, Copy, PartialEq, Eq, Structural)]
pub enum Direction {
    Incoming,
    Outgoing,
    Both,
}

/// The name of a direction in the graph output.
pub open spec fn direction_name(d: Direction) -> Seq<char> {
    match d {
        Direction::Incoming => "incoming"@,
        Direction::Outgoing => "outgoing"@,
        Direction::Both => "both"@,
    }
}

/// A block of the graph.
#[derive(Debug)]
pub struct GraphNode {
    pub id: BlockId,
    pub root_id: BlockId,
    pub block_type: String,
    pub markdown_preview: String,
}

/// Model of a [`GraphNode`].
pub struct NodeView {
    pub id: Seq<char>,
    pub root_id: Seq<char>,
    pub block_type: Seq<char>,
    pub markdown_preview: Seq<char>,
}

impl View for GraphNode {
    type V = NodeView;

    open spec fn view(&self) -> NodeView {
        NodeView {
            id: self.id@,
            root_id: self.root_id@,
            block_type: self.block_type@,
            markdown_preview: self.markdown_preview@,
        }
    }
}

/// A reference from `source` to `target` with its anchor text.
#[derive(Debug)]
pub struct GraphEdge {
    pub source: BlockId,
    pub target: BlockId,
    pub anchor: String,
}

/// Model of an edge: source, target, anchor.
pub type EdgeView = (Seq<char>, Seq<char>, Seq<char>);

impl View for GraphEdge {
    type V = EdgeView;

    open spec fn view(&self) -> EdgeView {
        (self.source@, self.target@, self.anchor@)
    }
}

/// Models of a list of edges.
pub open spec fn edge_views(es: Seq<GraphEdge>) -> Seq<EdgeView> {
    es.map_values(|e: GraphEdge| e@)
}

/// Models of a list of nodes.
pub open spec fn node_views(ns: Seq<GraphNode>) -> Seq<NodeView> {
    ns.map_values(|n: GraphNode| n@)
}

/// The neighbourhood of a block.
#[derive(Debug)]
pub struct Graph {
    pub schema: String,
    pub center: BlockId,
    pub depth: usize,
    pub direction: String,
    /// Ordered by id.
    pub nodes: Vec<GraphNode>,
    /// In discovery order.
    pub edges: Vec<GraphEdge>,
    pub truncated: bool,
}

/// A row of a reference query.
#[derive(Debug)]
pub struct RefRow {
    pub block_id: String,
    pub def_block_id: String,
    pub content: String,
}

/// A row of the node query.
#[derive(Debug)]
pub struct NodeRow {
    pub id: String,
    pub root_id: String,
    pub block_type: String,
    pub markdown: String,
}

/// Which side of the references a query asks for.
#[derive(Debug, Clone, Copy, PartialEq, Eq, Structural)]
pub enum RefPass {
    /// References made by the frontier blocks.
    Outgoing,
    /// References pointing at the frontier blocks.
    Incoming,
}

/// Where the walk stands.
#[derive(Debug, Clone, Copy, PartialEq, Eq, Structural)]
pub enum Phase {
    /// About to start the next level.
    LevelStart,
    /// Waiting for the outgoing rows of the current level.
    AwaitOut,
    /// The incoming query of the current level is due.
    NeedIn,
    /// Waiting for the incoming rows of the current level.
    AwaitIn,
    /// Waiting for the node rows; the walk is over.
    Done,
}

/// What the caller must do next.
#[derive(Debug)]
pub enum WalkStep {
    /// Run `sql` and hand its rows to [`GraphWalk::absorb`].
    QueryRefs { pass: RefPass, sql: String },
    /// Run `sql` and hand its rows to [`GraphWalk::finish`].
    FetchNodes { sql: String },
}

/// Model of a [`WalkStep`].
pub enum StepView {
    QueryRefs { pass: RefPass, sql: Seq<char> },
    FetchNodes { sql: Seq<char> },
}

impl View for WalkStep {
    type V = StepView;

    open spec fn view(&self) -> StepView {
        match self {
            WalkStep::QueryRefs { pass, sql } => StepView::QueryRefs { pass: *pass, sql: sql@ },
            WalkStep::FetchNodes { sql } => StepView::FetchNodes { sql: sql@ },
        }
    }
}

/// The state of a breadth-first walk.
pub struct GraphWalk {
    center: BlockId,
    depth: usize,
    direction: Direction,
    /// Ascending by id.
    visited: Vec<BlockId>,
    frontier: Vec<BlockId>,
    current: Vec<BlockId>,
    /// Ascending by id.
    next_ids: Vec<BlockId>,
    edges: Vec<GraphEdge>,
    truncated: bool,
    level: usize,
    phase: Phase,
}

/// Model of a [`GraphWalk`].
pub struct WalkView {
    pub center: Seq<char>,
    pub depth: nat,
    pub direction: Direction,
    pub visited: Seq<Seq<char>>,
    pub frontier: Seq<Seq<char>>,
    pub current: Seq<Seq<char>>,
    pub next_ids: Seq<Seq<char>>,
    pub edges: Seq<EdgeView>,
    pub truncated: bool,
    pub level: nat,
    pub phase: Phase,
}

impl View for GraphWalk {
    type V = WalkView;

    closed spec fn view(&self) -> WalkView {
        WalkView {
            center: self.center@,
            depth: self.depth as nat,
            direction: self.direction,
            visited: id_texts(self.visited@),
            frontier: id_texts(self.frontier@),
            current: id_texts(self.current@),
            next_ids: id_texts(self.next_ids@),
            edges: edge_views(self.edges@),
            truncated: self.truncated,
            level: self.level as nat,
            phase: self.phase,
        }
    }
}

// ---------------------------------------------------------------------------
// Specification of the walk
// ---------------------------------------------------------------------------

/// Inserts `x` into an ascending list of ids, unless it is there already.
pub open spec fn set_insert(s: Seq<Seq<char>>, x: Seq<char>) -> Seq<Seq<char>>
    decreases s.len(),
{
    if s.len() == 0 {
        seq![x]
    } else if seq_lt(x, s[0]) {
        seq![x] + s
    } else if x == s[0] {
        s
    } else {
        seq![s[0]] + set_insert(s.drop_first(), x)
    }
}

/// Strictly ascending ids.
pub open spec fn ascending(s: Seq<Seq<char>>) -> bool {
    forall|i: int, j: int| 0 <= i < j < s.len() ==> seq_lt(#[trigger] s[i], #[trigger] s[j])
}

/// `true` when the references of `d` include those made by the frontier.
pub open spec fn follows_outgoing(d: Direction) -> bool {
    d == Direction::Outgoing || d == Direction::Both
}

/// The effect of one reference row: nothing but the truncation mark once
/// the edge budget is spent; nothing for a row whose ids do not parse;
/// otherwise its edge is added unless already kept, and its far end is
/// queued for the next level unless already visited.
pub open spec fn absorb_row(w: WalkView, pass: RefPass, r: RefRow) -> WalkView {
    if w.edges.len() >= EDGE_LIMIT {
        WalkView { truncated: true, ..w }
    } else if !(is_id_text(r.block_id@) && is_id_text(r.def_block_id@)) {
        w
    } else {
        let e: EdgeView = (r.block_id@, r.def_block_id@, r.content@);
        let far = match pass {
            RefPass::Outgoing => r.def_block_id@,
            RefPass::Incoming => r.block_id@,
        };
        WalkView {
            edges: if w.edges.contains(e) { w.edges } else { w.edges.push(e) },
            next_ids: if w.visited.contains(far) { w.next_ids } else { set_insert(w.next_ids, far) },
            ..w
        }
    }
}

/// The effect of the rows of one reference query, in row order.
pub open spec fn absorb_rows(w: WalkView, pass: RefPass, rows: Seq<RefRow>) -> WalkView
    decreases rows.len(),
{
    if rows.len() == 0 {
        w
    } else {
        absorb_row(absorb_rows(w, pass, rows.drop_last()), pass, rows.last())
    }
}

proof fn lemma_absorb_rows_frame(w: WalkView, pass: RefPass, rows: Seq<RefRow>)
    ensures
        absorb_rows(w, pass, rows).level == w.level,
        absorb_rows(w, pass, rows).depth == w.depth,
        absorb_rows(w, pass, rows).phase == w.phase,
        absorb_rows(w, pass, rows).direction == w.direction,
        absorb_rows(w, pass, rows).center == w.center,
        absorb_rows(w, pass, rows).visited == w.visited,
        absorb_rows(w, pass, rows).frontier == w.frontier,
        absorb_rows(w, pass, rows).current == w.current,
    decreases rows.len(),
{
    if rows.len() > 0 {
        lemma_absorb_rows_frame(w, pass, rows.drop_last());
    }
}

/// Admits one queued id: visited and queued for the next level, unless the
/// node budget is spent, which marks the walk truncated.
pub open spec fn admit_one(w: WalkView, id: Seq<char>) -> WalkView {
    if w.visited.len() >= NODE_LIMIT {
        WalkView { truncated: true, ..w }
    } else {
        WalkView { visited: set_insert(w.visited, id), frontier: w.frontier.push(id), ..w }
    }
}

/// Admits queued ids in order.
pub open spec fn admit_all(w: WalkView, ids: Seq<Seq<char>>) -> WalkView
    decreases ids.len(),
{
    if ids.len() == 0 {
        w
    } else {
        admit_one(admit_all(w, ids.drop_last()), ids.last())
    }
}

/// Closes a level: the ids found are admitted in ascending order.
pub open spec fn end_level(w: WalkView) -> WalkView {
    let a = admit_all(w, w.next_ids);
    WalkView { level: a.level + 1, phase: Phase::LevelStart, current: Seq::empty(), next_ids: Seq::empty(), ..a }
}

/// The reference query of a pass over the given ids.
pub open spec fn refs_query(pass: RefPass, ids: Seq<Seq<char>>) -> Seq<char> {
    match pass {
        RefPass::Outgoing => "SELECT block_id, def_block_id, content FROM refs WHERE block_id IN ("@
            + quoted_id_list(ids) + ")"@,
        RefPass::Incoming => "SELECT block_id, def_block_id, content FROM refs WHERE def_block_id IN ("@
            + quoted_id_list(ids) + ")"@,
    }
}

/// The node query over the given ids.
pub open spec fn nodes_query(ids: Seq<Seq<char>>) -> Seq<char> {
    "SELECT id, root_id, type, markdown FROM blocks WHERE id IN ("@ + quoted_id_list(ids) + ")"@
}

/// Levels still allowed.
pub open spec fn levels_left(w: WalkView) -> nat {
    if w.level < w.depth { (w.depth - w.level) as nat } else { 0 }
}

/// The next step from a walk waiting to start a level or to query the
/// incoming references: the new state and the query to run.
pub open spec fn advance(w: WalkView) -> (WalkView, StepView)
    decreases levels_left(w),
{
    match w.phase {
        Phase::NeedIn => (
            WalkView { phase: Phase::AwaitIn, ..w },
            StepView::QueryRefs { pass: RefPass::Incoming, sql: refs_query(RefPass::Incoming, w.current) },
        ),
        _ => {
            if w.level >= w.depth || w.frontier.len() == 0 {
                (WalkView { phase: Phase::Done, ..w }, StepView::FetchNodes { sql: nodes_query(w.visited) })
            } else {
                let s = WalkView { current: w.frontier, frontier: Seq::empty(), next_ids: Seq::empty(), ..w };
                if follows_outgoing(w.direction) {
                    (
                        WalkView { phase: Phase::AwaitOut, ..s },
                        StepView::QueryRefs { pass: RefPass::Outgoing, sql: refs_query(RefPass::Outgoing, s.current) },
                    )
                } else if s.edges.len() < EDGE_LIMIT {
                    (
                        WalkView { phase: Phase::AwaitIn, ..s },
                        StepView::QueryRefs { pass: RefPass::Incoming, sql: refs_query(RefPass::Incoming, s.current) },
                    )
                } else {
                    advance(end_level(s))
                }
            }
        },
    }
}

/// The state after the rows of the awaited reference query.
pub open spec fn after_rows(w: WalkView, rows: Seq<RefRow>) -> WalkView {
    match w.phase {
        Phase::AwaitOut => {
            let a = absorb_rows(w, RefPass::Outgoing, rows);
            if w.direction == Direction::Both && a.edges.len() < EDGE_LIMIT {
                WalkView { phase: Phase::NeedIn, ..a }
            } else {
                end_level(a)
            }
        },
        _ => end_level(absorb_rows(w, RefPass::Incoming, rows)),
    }
}

/// The initial state of a walk.
pub open spec fn initial_walk(center: Seq<char>, depth: nat, d: Direction) -> WalkView {
    WalkView {
        center,
        depth,
        direction: d,
        visited: seq![center],
        frontier: seq![center],
        current: Seq::empty(),
        next_ids: Seq::empty(),
        edges: Seq::empty(),
        truncated: false,
        level: 0,
        phase: Phase::LevelStart,
    }
}

/// The node built for a row whose ids parse.
pub open spec fn node_of(r: NodeRow) -> NodeView {
    NodeView {
        id: r.id@,
        root_id: r.root_id@,
        block_type: r.block_type@,
        markdown_preview: preview(r.markdown@, NODE_PREVIEW_LEN as nat),
    }
}

/// Inserts a node into a list ordered by id; a node with the same id is
/// replaced.
pub open spec fn node_insert(s: Seq<NodeView>, n: NodeView) -> Seq<NodeView>
    decreases s.len(),
{
    if s.len() == 0 {
        seq![n]
    } else if seq_lt(n.id, s[0].id) {
        seq![n] + s
    } else if n.id == s[0].id {
        seq![n] + s.drop_first()
    } else {
        seq![s[0]] + node_insert(s.drop_first(), n)
    }
}

/// The nodes built from the node rows: rows whose ids do not parse are
/// skipped, a later row replaces an earlier one with the same id, and the
/// nodes come ordered by id.
pub open spec fn nodes_from(rows: Seq<NodeRow>) -> Seq<NodeView>
    decreases rows.len(),
{
    if rows.len() == 0 {
        Seq::empty()
    } else {
        let prev = nodes_from(rows.drop_last());
        let r = rows.last();
        if is_id_text(r.id@) && is_id_text(r.root_id@) { node_insert(prev, node_of(r)) } else { prev }
    }
}

/// `true` when `g` is the graph of walk `w` given the node rows.
pub open spec fn graph_of(w: WalkView, rows: Seq<NodeRow>, g: Graph) -> bool {
    &&& g.schema@ == "siyuan-agent.graph.v1"@
    &&& g.center@ == w.center
    &&& g.depth as nat == w.depth
    &&& g.direction@ == direction_name(w.direction)
    &&& node_views(g.nodes@) == nodes_from(rows)
    &&& edge_views(g.edges@) == w.edges
    &&& g.truncated == w.truncated
}

/// The walk's invariant.
pub open spec fn walk_wf(w: WalkView) -> bool {
    &&& ascending(w.visited)
    &&& w.visited.contains(w.center)
    &&& w.visited.len() <= NODE_LIMIT
    &&& ascending(w.next_ids)
    &&& w.edges.len() <= EDGE_LIMIT
    &&& forall|i: int, j: int| 0 <= i < j < w.edges.len() ==> #[trigger] w.edges[i] != #[trigger] w.edges[j]
    &&& w.level <= w.depth
    &&& (w.phase == Phase::AwaitOut || w.phase == Phase::NeedIn || w.phase == Phase::AwaitIn) ==> w.level < w.depth
}

// ---------------------------------------------------------------------------
// Executable walk
// ---------------------------------------------------------------------------

/// `true` when `a` sorts before `b`.
fn id_lt(a: &BlockId, b: &BlockId) -> (r: bool)
    ensures
        r == seq_lt(a@, b@),
{
    let ca = chars_of(a.as_str());
    let cb = chars_of(b.as_str());
    chars_lt(ca.as_slice(), cb.as_slice())
}

/// `true` when `v` holds an id equal to `x`.
fn contains_id(v: &Vec<BlockId>, x: &BlockId) -> (r: bool)
    ensures
        r == id_texts(v@).contains(x@),
{
    let mut i: usize = 0;
    while i < v.len()
        invariant
            i <= v@.len(),
            forall|k: int| 0 <= k < i ==> v@[k]@ != x@,
        decreases v@.len() - i,
    {
        if v[i].same(x) {
            assert(id_texts(v@)[i as int] == x@);
            return true;
        }
        i = i + 1;
    }
    proof {
        if id_texts(v@).contains(x@) {
            let k = choose|k: int| 0 <= k < id_texts(v@).len() && id_texts(v@)[k] == x@;
            assert(v@[k]@ == x@);
        }
    }
    false
}

/// Where [`set_insert`] puts `x` into the ids of `v`: at index `j`,
/// appended (action 0), inserted before (1), or already there (2).
fn id_insert_point(v: &Vec<BlockId>, x: &BlockId) -> (res: (usize, u8))
    ensures
        res.0 <= v@.len(),
        res.1 <= 2,
        res.1 == 0 ==> res.0 == v@.len() && set_insert(id_texts(v@), x@) == id_texts(v@) + seq![x@],
        res.1 == 1 ==> res.0 < v@.len() && set_insert(id_texts(v@), x@)
            == id_texts(v@).take(res.0 as int) + (seq![x@] + id_texts(v@).skip(res.0 as int)),
        res.1 == 2 ==> set_insert(id_texts(v@), x@) == id_texts(v@),
{
    let ghost s = id_texts(v@);
    let len = v.len();
    let mut j: usize = 0;
    assert(s.skip(0) =~= s);
    assert(s.take(0) =~= Seq::<Seq<char>>::empty());
    while j < len
        invariant
            len == v@.len(),
            s == id_texts(v@),
            j <= len,
            set_insert(s, x@) == s.take(j as int) + set_insert(s.skip(j as int), x@),
        decreases len - j,
    {
        let ghost rest = s.skip(j as int);
        assert(rest[0] == v@[j as int]@);
        if id_lt(x, &v[j]) {
            assert(set_insert(rest, x@) == seq![x@] + rest);
            return (j, 1);
        }
        if v[j].same(x) {
            assert(set_insert(rest, x@) == rest);
            assert(s.take(j as int) + rest =~= s);
            return (j, 2);
        }
        proof {
            assert(rest.drop_first() =~= s.skip(j + 1));
            assert(s.take(j as int) + (seq![rest[0]] + set_insert(s.skip(j + 1), x@))
                =~= s.take(j + 1) + set_insert(s.skip(j + 1), x@));
        }
        j = j + 1;
    }
    proof {
        assert(s.skip(len as int) =~= Seq::<Seq<char>>::empty());
        assert(s.take(len as int) =~= s);
    }
    (len, 0)
}

/// Inserts `x` into the ascending list `v`, unless already present.
fn insert_id(v: &mut Vec<BlockId>, x: BlockId)
    ensures
        id_texts(final(v)@) == set_insert(id_texts(old(v)@), x@),
{
    let ghost s = id_texts(v@);
    let ghost xv = x@;
    let (j, action) = id_insert_point(v, &x);
    if action == 0 {
        v.push(x);
        assert(id_texts(v@) =~= s + seq![xv]);
    } else if action == 1 {
        v.insert(j, x);
        assert(id_texts(v@) =~= s.take(j as int) + (seq![xv] + s.skip(j as int)));
    }
}

/// `true` when `es` holds an edge with the given source, target and anchor.
fn contains_edge(es: &Vec<GraphEdge>, src: &str, tgt: &str, anchor: &str) -> (r: bool)
    ensures
        r == edge_views(es@).contains((src@, tgt@, anchor@)),
{
    let mut i: usize = 0;
    while i < es.len()
        invariant
            i <= es@.len(),
            forall|k: int| 0 <= k < i ==> es@[k]@ != (src@, tgt@, anchor@),
        decreases es@.len() - i,
    {
        let e = &es[i];
        if str_eq(e.source.as_str(), src) && str_eq(e.target.as_str(), tgt) && str_eq(e.anchor.as_str(), anchor) {
            assert(edge_views(es@)[i as int] == (src@, tgt@, anchor@));
            return true;
        }
        i = i + 1;
    }
    proof {
        if edge_views(es@).contains((src@, tgt@, anchor@)) {
            let k = choose|k: int| 0 <= k < edge_views(es@).len() && edge_views(es@)[k] == (src@, tgt@, anchor@);
            assert(es@[k]@ == (src@, tgt@, anchor@));
        }
    }
    false
}

/// Builds the reference query of a pass over the given ids.
fn refs_sql(pass: RefPass, ids: &Vec<BlockId>) -> (r: String)
    ensures
        r@ == refs_query(pass, id_texts(ids@)),
{
    let mut s = match pass {
        RefPass::Outgoing => owned("SELECT block_id, def_block_id, content FROM refs WHERE block_id IN ("),
        RefPass::Incoming => owned("SELECT block_id, def_block_id, content FROM refs WHERE def_block_id IN ("),
    };
    let l = quote_id_list(ids);
    push_str(&mut s, l.as_str());
    push_str(&mut s, ")");
    s
}

/// Builds the node query over the given ids.
fn nodes_sql(ids: &Vec<BlockId>) -> (r: String)
    ensures
        r@ == nodes_query(id_texts(ids@)),
{
    let mut s = owned("SELECT id, root_id, type, markdown FROM blocks WHERE id IN (");
    let l = quote_id_list(ids);
    push_str(&mut s, l.as_str());
    push_str(&mut s, ")");
    s
}

proof fn lemma_id_texts_push(v: Seq<BlockId>, x: BlockId)
    ensures
        id_texts(v.push(x)) == id_texts(v).push(x@),
{
    assert(id_texts(v.push(x)) =~= id_texts(v).push(x@));
}

proof fn lemma_edge_views_push(v: Seq<GraphEdge>, x: GraphEdge)
    ensures
        edge_views(v.push(x)) == edge_views(v).push(x@),
{
    assert(edge_views(v.push(x)) =~= edge_views(v).push(x@));
}

impl GraphWalk {
    /// A walk around `center`, `depth` levels deep, following `direction`.
    pub fn new(center: &BlockId, depth: usize, direction: Direction) -> (r: GraphWalk)
        ensures
            r@ == initial_walk(center@, depth as nat, direction),
            walk_wf(r@),
    {
        let w = GraphWalk {
            center: center.duplicate(),
            depth,
            direction,
            visited: vec![center.duplicate()],
            frontier: vec![center.duplicate()],
            current: Vec::new(),
            next_ids: Vec::new(),
            edges: Vec::new(),
            truncated: false,
            level: 0,
            phase: Phase::LevelStart,
        };
        assert(id_texts(w.visited@) =~= seq![center@]);
        assert(id_texts(w.frontier@) =~= seq![center@]);
        assert(id_texts(w.current@) =~= Seq::<Seq<char>>::empty());
        assert(id_texts(w.next_ids@) =~= Seq::<Seq<char>>::empty());
        assert(edge_views(w.edges@) =~= Seq::<EdgeView>::empty());
        assert(w@.visited[0] == center@);
        w
    }

    /// Where the walk stands.
    pub fn phase(&self) -> (r: Phase)
        ensures
            r == self@.phase,
    {
        self.phase
    }

    /// One reference row; see [`absorb_row`].
    fn absorb_one(&mut self, pass: RefPass, r: &RefRow)
        ensures
            final(self)@ == absorb_row(old(self)@, pass, *r),
    {
        if self.edges.len() >= EDGE_LIMIT {
            self.truncated = true;
            return;
        }
        let src = match BlockId::parse(r.block_id.as_str()) {
            Ok(id) => id,
            Err(_) => return,
        };
        let tgt = match BlockId::parse(r.def_block_id.as_str()) {
            Ok(id) => id,
            Err(_) => return,
        };
        if !contains_edge(&self.edges, r.block_id.as_str(), r.def_block_id.as_str(), r.content.as_str()) {
            let ghost before = self.edges@;
            self.edges.push(GraphEdge { source: src.duplicate(), target: tgt.duplicate(), anchor: r.content.clone() });
            proof {
                lemma_edge_views_push(before, self.edges@.last());
                assert(self.edges@.drop_last() =~= before);
                assert(self.edges@ =~= before.push(self.edges@.last()));
            }
        }
        let far = match pass {
            RefPass::Outgoing => tgt,
            RefPass::Incoming => src,
        };
        if !contains_id(&self.visited, &far) {
            insert_id(&mut self.next_ids, far);
        }
    }

    /// Takes the rows of the reference query that [`Self::next_step`] asked
    /// for, and moves on: to the incoming query of the level, or to the next
    /// level after admitting the ids found.
    pub fn absorb(&mut self, rows: &Vec<RefRow>)
        requires
            old(self)@.phase == Phase::AwaitOut || old(self)@.phase == Phase::AwaitIn,
            walk_wf(old(self)@),
        ensures
            final(self)@ == after_rows(old(self)@, rows@),
            walk_wf(final(self)@),
            final(self)@.phase == Phase::NeedIn || final(self)@.phase == Phase::LevelStart,
    {
        proof {
            lemma_after_rows_wf(self@, rows@);
        }
        let ghost w0 = self@;
        let pass = if self.phase == Phase::AwaitOut { RefPass::Outgoing } else { RefPass::Incoming };
        let mut i: usize = 0;
        assert(rows@.take(0) =~= Seq::<RefRow>::empty());
        while i < rows.len()
            invariant
                i <= rows@.len(),
                self@ == absorb_rows(w0, pass, rows@.take(i as int)),
            decreases rows@.len() - i,
        {
            proof {
                assert(rows@.take(i + 1).drop_last() =~= rows@.take(i as int));
                assert(rows@.take(i + 1).last() == rows@[i as int]);
            }
            self.absorb_one(pass, &rows[i]);
            i = i + 1;
        }
        assert(rows@.take(rows@.len() as int) =~= rows@);
        proof {
            lemma_absorb_rows_frame(w0, pass, rows@);
        }
        if pass == RefPass::Outgoing && self.direction == Direction::Both && self.edges.len() < EDGE_LIMIT {
            self.phase = Phase::NeedIn;
        } else {
            self.close_level();
        }
    }

    /// Admits the ids found in the level and moves to the next level.
    fn close_level(&mut self)
        requires
            old(self).level < usize::MAX,
        ensures
            final(self)@ == end_level(old(self)@),
    {
        let ghost w0 = self@;
        let mut found: Vec<BlockId> = Vec::new();
        std::mem::swap(&mut found, &mut self.next_ids);
        assert(id_texts(self.next_ids@) =~= Seq::<Seq<char>>::empty());
        let mut i: usize = 0;
        assert(id_texts(found@).take(0) =~= Seq::<Seq<char>>::empty());
        while i < found.len()
            invariant
                i <= found@.len(),
                id_texts(found@) == w0.next_ids,
                self@ == (WalkView { next_ids: Seq::empty(), ..admit_all(w0, id_texts(found@).take(i as int)) }),
                self.level == w0.level,
            decreases found@.len() - i,
        {
            let ghost ids = id_texts(found@);
            proof {
                assert(ids.take(i + 1).drop_last() =~= ids.take(i as int));
                assert(ids.take(i + 1).last() == found@[i as int]@);
            }
            if self.visited.len() >= NODE_LIMIT {
                self.truncated = true;
            } else {
                let ghost before = self.frontier@;
                insert_id(&mut self.visited, found[i].duplicate());
                self.frontier.push(found[i].duplicate());
                proof {
                    lemma_id_texts_push(before, self.frontier@.last());
                    assert(self.frontier@ =~= before.push(self.frontier@.last()));
                }
            }
            i = i + 1;
        }
        assert(id_texts(found@).take(found@.len() as int) =~= id_texts(found@));
        self.current = Vec::new();
        self.level = self.level + 1;
        self.phase = Phase::LevelStart;
        assert(id_texts(self.current@) =~= Seq::<Seq<char>>::empty());
        assert(id_texts(self.next_ids@) =~= Seq::<Seq<char>>::empty());
    }

    /// Says which query to run next and moves the walk on: the outgoing (or,
    /// for an incoming-only walk, incoming) query of the next level, the
    /// incoming query of the current level, or, when the depth is reached or
    /// no block is left to expand, the final node query.
    pub fn next_step(&mut self) -> (r: WalkStep)
        requires
            old(self)@.phase == Phase::LevelStart || old(self)@.phase == Phase::NeedIn,
            walk_wf(old(self)@),
        ensures
            (final(self)@, r@) == advance(old(self)@),
            walk_wf(final(self)@),
            r is QueryRefs ==> (final(self)@.phase == Phase::AwaitOut || final(self)@.phase == Phase::AwaitIn),
            r is FetchNodes ==> final(self)@.phase == Phase::Done,
        decreases levels_left(old(self)@),
    {
        proof {
            lemma_advance_wf(self@);
        }
        if self.phase == Phase::NeedIn {
            self.phase = Phase::AwaitIn;
            let sql = refs_sql(RefPass::Incoming, &self.current);
            return WalkStep::QueryRefs { pass: RefPass::Incoming, sql };
        }
        if self.level >= self.depth || self.frontier.len() == 0 {
            self.phase = Phase::Done;
            let sql = nodes_sql(&self.visited);
            return WalkStep::FetchNodes { sql };
        }
        let mut cur: Vec<BlockId> = Vec::new();
        std::mem::swap(&mut cur, &mut self.frontier);
        self.current = cur;
        self.next_ids = Vec::new();
        assert(id_texts(self.frontier@) =~= Seq::<Seq<char>>::empty());
        assert(id_texts(self.next_ids@) =~= Seq::<Seq<char>>::empty());
        if self.direction == Direction::Outgoing || self.direction == Direction::Both {
            self.phase = Phase::AwaitOut;
            let sql = refs_sql(RefPass::Outgoing, &self.current);
            WalkStep::QueryRefs { pass: RefPass::Outgoing, sql }
        } else if self.edges.len() < EDGE_LIMIT {
            self.phase = Phase::AwaitIn;
            let sql = refs_sql(RefPass::Incoming, &self.current);
            WalkStep::QueryRefs { pass: RefPass::Incoming, sql }
        } else {
            self.close_level();
            self.next_step()
        }
    }

    /// Builds the graph from the rows of the node query.
    pub fn finish(self, rows: &Vec<NodeRow>) -> (g: Graph)
        ensures
            graph_of(self@, rows@, g),
    {
        let mut nodes: Vec<GraphNode> = Vec::new();
        let mut i: usize = 0;
        assert(rows@.take(0) =~= Seq::<NodeRow>::empty());
        assert(node_views(nodes@) =~= Seq::<NodeView>::empty());
        while i < rows.len()
            invariant
                i <= rows@.len(),
                node_views(nodes@) == nodes_from(rows@.take(i as int)),
            decreases rows@.len() - i,
        {
            let r = &rows[i];
            proof {
                assert(rows@.take(i + 1).drop_last() =~= rows@.take(i as int));
                assert(rows@.take(i + 1).last() == rows@[i as int]);
            }
            match (BlockId::parse(r.id.as_str()), BlockId::parse(r.root_id.as_str())) {
                (Ok(id), Ok(root_id)) => {
                    let node = GraphNode {
                        id,
                        root_id,
                        block_type: r.block_type.clone(),
                        markdown_preview: truncate(r.markdown.as_str(), NODE_PREVIEW_LEN),
                    };
                    insert_node(&mut nodes, node);
                },
                _ => {},
            }
            i = i + 1;
        }
        assert(rows@.take(rows@.len() as int) =~= rows@);
        let direction = match self.direction {
            Direction::Incoming => owned("incoming"),
            Direction::Outgoing => owned("outgoing"),
            Direction::Both => owned("both"),
        };
        Graph {
            schema: owned("siyuan-agent.graph.v1"),
            center: self.center,
            depth: self.depth,
            direction,
            nodes,
            edges: self.edges,
            truncated: self.truncated,
        }
    }
}

/// Where [`node_insert`] puts a node with id `id` into `v`: at index `j`,
/// appended (action 0), inserted before (1) or replacing (2).
fn node_insert_point(v: &Vec<GraphNode>, id: &BlockId, nv: Ghost<NodeView>) -> (res: (usize, u8))
    requires
        nv@.id == id@,
    ensures
        res.0 <= v@.len(),
        res.1 <= 2,
        res.1 == 0 ==> res.0 == v@.len() && node_insert(node_views(v@), nv@) == node_views(v@) + seq![nv@],
        res.1 == 1 ==> res.0 < v@.len() && node_insert(node_views(v@), nv@)
            == node_views(v@).take(res.0 as int) + (seq![nv@] + node_views(v@).skip(res.0 as int)),
        res.1 == 2 ==> res.0 < v@.len() && node_insert(node_views(v@), nv@)
            == node_views(v@).take(res.0 as int) + (seq![nv@] + node_views(v@).skip(res.0 as int).drop_first()),
{
    let ghost s = node_views(v@);
    let len = v.len();
    let mut j: usize = 0;
    assert(s.skip(0) =~= s);
    assert(s.take(0) =~= Seq::<NodeView>::empty());
    while j < len
        invariant
            len == v@.len(),
            s == node_views(v@),
            nv@.id == id@,
            j <= len,
            node_insert(s, nv@) == s.take(j as int) + node_insert(s.skip(j as int), nv@),
        decreases len - j,
    {
        let ghost rest = s.skip(j as int);
        assert(rest[0] == v@[j as int]@);
        if id_lt(id, &v[j].id) {
            assert(node_insert(rest, nv@) == seq![nv@] + rest);
            return (j, 1);
        }
        if v[j].id.same(id) {
            assert(node_insert(rest, nv@) == seq![nv@] + rest.drop_first());
            return (j, 2);
        }
        proof {
            assert(rest.drop_first() =~= s.skip(j + 1));
            assert(s.take(j as int) + (seq![rest[0]] + node_insert(s.skip(j + 1), nv@))
                =~= s.take(j + 1) + node_insert(s.skip(j + 1), nv@));
        }
        j = j + 1;
    }
    proof {
        assert(s.skip(len as int) =~= Seq::<NodeView>::empty());
        assert(s.take(len as int) =~= s);
    }
    (len, 0)
}

/// Inserts a node into a list ordered by id, replacing one with the same id.
fn insert_node(v: &mut Vec<GraphNode>, n: GraphNode)
    ensures
        node_views(final(v)@) == node_insert(node_views(old(v)@), n@),
{
    let ghost s = node_views(v@);
    let ghost nv = n@;
    let (j, action) = node_insert_point(v, &n.id, Ghost(n@));
    if action == 0 {
        v.push(n);
        assert(node_views(v@) =~= s + seq![nv]);
    } else if action == 1 {
        v.insert(j, n);
        assert(node_views(v@) =~= s.take(j as int) + (seq![nv] + s.skip(j as int)));
    } else {
        v.set(j, n);
        assert(node_views(v@) =~= s.take(j as int) + (seq![nv] + s.skip(j as int).drop_first()));
    }
}


// ---------------------------------------------------------------------------
// Laws
// ---------------------------------------------------------------------------

pub(crate) proof fn lemma_set_insert(s: Seq<Seq<char>>, x: Seq<char>)
    requires
        ascending(s),
    ensures
        ascending(set_insert(s, x)),
        set_insert(s, x).contains(x),
        forall|y: Seq<char>| s.contains(y) ==> set_insert(s, x).contains(y),
        forall|y: Seq<char>| set_insert(s, x).contains(y) ==> y == x || s.contains(y),
        set_insert(s, x).len() <= s.len() + 1,
    decreases s.len(),
{
    let t = set_insert(s, x);
    if s.len() == 0 {
        assert(t[0] == x);
    } else if seq_lt(x, s[0]) {
        assert(t[0] == x);
        assert forall|y: Seq<char>| s.contains(y) implies t.contains(y) by {
            let k = choose|k: int| 0 <= k < s.len() && s[k] == y;
            assert(t[k + 1] == y);
        }
        assert forall|y: Seq<char>| t.contains(y) implies y == x || s.contains(y) by {
            let k = choose|k: int| 0 <= k < t.len() && t[k] == y;
            if k > 0 { assert(s[k - 1] == y); }
        }
        assert forall|i: int, j: int| 0 <= i < j < t.len() implies seq_lt(#[trigger] t[i], #[trigger] t[j]) by {
            if i == 0 {
                assert(t[j] == s[j - 1]);
                if j - 1 > 0 {
                    lemma_seq_lt_transitive(x, s[0], s[j - 1]);
                }
            } else {
                assert(t[i] == s[i - 1] && t[j] == s[j - 1]);
            }
        }
    } else if x == s[0] {
        assert(s[0] == x);
    } else {
        lemma_seq_lt_total(x, s[0]);
        let rest = s.drop_first();
        assert(ascending(rest)) by {
            assert forall|i: int, j: int| 0 <= i < j < rest.len() implies seq_lt(#[trigger] rest[i], #[trigger] rest[j]) by {
                assert(rest[i] == s[i + 1] && rest[j] == s[j + 1]);
            }
        }
        lemma_set_insert(rest, x);
        let u = set_insert(rest, x);
        assert(t == seq![s[0]] + u);
        assert forall|y: Seq<char>| s.contains(y) implies t.contains(y) by {
            let k = choose|k: int| 0 <= k < s.len() && s[k] == y;
            if k == 0 {
                assert(t[0] == y);
            } else {
                assert(rest[k - 1] == y);
                assert(rest.contains(y));
                assert(u.contains(y));
                let m = choose|m: int| 0 <= m < u.len() && u[m] == y;
                assert(t[m + 1] == y);
            }
        }
        assert(t.contains(x)) by {
            let m = choose|m: int| 0 <= m < u.len() && u[m] == x;
            assert(t[m + 1] == x);
        }
        assert forall|y: Seq<char>| t.contains(y) implies y == x || s.contains(y) by {
            let k = choose|k: int| 0 <= k < t.len() && t[k] == y;
            if k == 0 {
                assert(s[0] == y);
            } else {
                assert(u[k - 1] == y);
                assert(u.contains(y));
                if y != x {
                    assert(rest.contains(y));
                    let m = choose|m: int| 0 <= m < rest.len() && rest[m] == y;
                    assert(s[m + 1] == y);
                }
            }
        }
        assert forall|i: int, j: int| 0 <= i < j < t.len() implies seq_lt(#[trigger] t[i], #[trigger] t[j]) by {
            if i == 0 {
                assert(t[j] == u[j - 1]);
                assert(u.contains(u[j - 1]));
                if u[j - 1] != x {
                    assert(rest.contains(u[j - 1]));
                    let m = choose|m: int| 0 <= m < rest.len() && rest[m] == u[j - 1];
                    assert(s[m + 1] == u[j - 1]);
                }
            } else {
                assert(t[i] == u[i - 1] && t[j] == u[j - 1]);
            }
        }
    }
}

proof fn lemma_absorb_row_wf(w: WalkView, pass: RefPass, r: RefRow)
    requires
        walk_wf(w),
    ensures
        walk_wf(absorb_row(w, pass, r)),
{
    let a = absorb_row(w, pass, r);
    if w.edges.len() < EDGE_LIMIT && is_id_text(r.block_id@) && is_id_text(r.def_block_id@) {
        let e: EdgeView = (r.block_id@, r.def_block_id@, r.content@);
        let far = match pass {
            RefPass::Outgoing => r.def_block_id@,
            RefPass::Incoming => r.block_id@,
        };
        lemma_set_insert(w.next_ids, far);
        if !w.edges.contains(e) {
            assert forall|i: int, j: int| 0 <= i < j < a.edges.len() implies #[trigger] a.edges[i] != #[trigger] a.edges[j] by {
                if j == w.edges.len() {
                    assert(a.edges[j] == e);
                    assert(a.edges[i] == w.edges[i]);
                } else {
                    assert(a.edges[i] == w.edges[i] && a.edges[j] == w.edges[j]);
                }
            }
        }
    }
}

proof fn lemma_absorb_rows_wf(w: WalkView, pass: RefPass, rows: Seq<RefRow>)
    requires
        walk_wf(w),
    ensures
        walk_wf(absorb_rows(w, pass, rows)),
    decreases rows.len(),
{
    if rows.len() > 0 {
        lemma_absorb_rows_wf(w, pass, rows.drop_last());
        lemma_absorb_row_wf(absorb_rows(w, pass, rows.drop_last()), pass, rows.last());
    }
}

proof fn lemma_admit_all_wf(w: WalkView, ids: Seq<Seq<char>>)
    requires
        walk_wf(w),
    ensures
        walk_wf(admit_all(w, ids)),
        admit_all(w, ids).level == w.level,
        admit_all(w, ids).depth == w.depth,
        admit_all(w, ids).phase == w.phase,
        admit_all(w, ids).next_ids == w.next_ids,
    decreases ids.len(),
{
    if ids.len() > 0 {
        lemma_admit_all_wf(w, ids.drop_last());
        let p = admit_all(w, ids.drop_last());
        if p.visited.len() < NODE_LIMIT {
            lemma_set_insert(p.visited, ids.last());
        }
    }
}

proof fn lemma_end_level_wf(w: WalkView)
    requires
        walk_wf(w),
        w.level < w.depth,
    ensures
        walk_wf(end_level(w)),
        end_level(w).phase == Phase::LevelStart,
        end_level(w).level == w.level + 1,
{
    lemma_admit_all_wf(w, w.next_ids);
}

/// Every step keeps the walk's invariant: the visited ids stay ascending,
/// hold the centre and number at most [`NODE_LIMIT`]; the edges stay
/// distinct and number at most [`EDGE_LIMIT`]. A query step leaves the walk
/// waiting for its rows; the node step ends it.
pub proof fn lemma_advance_wf(w: WalkView)
    requires
        walk_wf(w),
        w.phase == Phase::LevelStart || w.phase == Phase::NeedIn,
    ensures
        walk_wf(advance(w).0),
        advance(w).1 is QueryRefs ==> (advance(w).0.phase == Phase::AwaitOut || advance(w).0.phase == Phase::AwaitIn),
        advance(w).1 is FetchNodes ==> advance(w).0.phase == Phase::Done,
    decreases levels_left(w),
{
    if w.phase == Phase::LevelStart && w.level < w.depth && w.frontier.len() > 0 {
        let s = WalkView { current: w.frontier, frontier: Seq::empty(), next_ids: Seq::empty(), ..w };
        if !follows_outgoing(w.direction) && s.edges.len() >= EDGE_LIMIT {
            lemma_end_level_wf(s);
            lemma_advance_wf(end_level(s));
        }
    }
}

/// Absorbing the awaited rows keeps the walk's invariant and leaves it
/// ready for its next step.
pub proof fn lemma_after_rows_wf(w: WalkView, rows: Seq<RefRow>)
    requires
        walk_wf(w),
        w.phase == Phase::AwaitOut || w.phase == Phase::AwaitIn,
    ensures
        walk_wf(after_rows(w, rows)),
        after_rows(w, rows).phase == Phase::NeedIn || after_rows(w, rows).phase == Phase::LevelStart,
{
    let pass = if w.phase == Phase::AwaitOut { RefPass::Outgoing } else { RefPass::Incoming };
    lemma_absorb_rows_wf(w, pass, rows);
    lemma_absorb_rows_frame(w, pass, rows);
    lemma_end_level_wf(absorb_rows(w, pass, rows));
}

/// Ids strictly ascending in a list of nodes.
pub open spec fn nodes_ascending(s: Seq<NodeView>) -> bool {
    forall|i: int, j: int| 0 <= i < j < s.len() ==> seq_lt(#[trigger] s[i].id, #[trigger] s[j].id)
}

proof fn lemma_node_insert(s: Seq<NodeView>, n: NodeView)
    requires
        nodes_ascending(s),
    ensures
        nodes_ascending(node_insert(s, n)),
        forall|k: int| 0 <= k < node_insert(s, n).len() ==> #[trigger] node_insert(s, n)[k].id == n.id
            || exists|m: int| 0 <= m < s.len() && s[m].id == node_insert(s, n)[k].id,
    decreases s.len(),
{
    let t = node_insert(s, n);
    if s.len() == 0 {
    } else if seq_lt(n.id, s[0].id) {
        assert forall|k: int| 0 <= k < t.len() implies #[trigger] t[k].id == n.id
            || exists|m: int| 0 <= m < s.len() && s[m].id == t[k].id by {
            if k > 0 { assert(s[k - 1].id == t[k].id); }
        }
        assert forall|i: int, j: int| 0 <= i < j < t.len() implies seq_lt(#[trigger] t[i].id, #[trigger] t[j].id) by {
            if i == 0 {
                assert(t[j] == s[j - 1]);
                if j - 1 > 0 {
                    lemma_seq_lt_transitive(n.id, s[0].id, s[j - 1].id);
                }
            } else {
                assert(t[i] == s[i - 1] && t[j] == s[j - 1]);
            }
        }
    } else if n.id == s[0].id {
        assert forall|k: int| 0 <= k < t.len() implies #[trigger] t[k].id == n.id
            || exists|m: int| 0 <= m < s.len() && s[m].id == t[k].id by {
            if k > 0 { assert(s[k].id == t[k].id); }
        }
        assert forall|i: int, j: int| 0 <= i < j < t.len() implies seq_lt(#[trigger] t[i].id, #[trigger] t[j].id) by {
            assert(t[j] == s[j]);
            if i > 0 {
                assert(t[i] == s[i]);
            }
        }
    } else {
        lemma_seq_lt_total(n.id, s[0].id);
        let rest = s.drop_first();
        assert(nodes_ascending(rest)) by {
            assert forall|i: int, j: int| 0 <= i < j < rest.len() implies seq_lt(#[trigger] rest[i].id, #[trigger] rest[j].id) by {
                assert(rest[i] == s[i + 1] && rest[j] == s[j + 1]);
            }
        }
        lemma_node_insert(rest, n);
        let u = node_insert(rest, n);
        assert(t == seq![s[0]] + u);
        assert forall|k: int| 0 <= k < t.len() implies #[trigger] t[k].id == n.id
            || exists|m: int| 0 <= m < s.len() && s[m].id == t[k].id by {
            if k == 0 {
                assert(s[0].id == t[0].id);
            } else {
                assert(t[k] == u[k - 1]);
                if u[k - 1].id != n.id {
                    let m = choose|m: int| 0 <= m < rest.len() && rest[m].id == u[k - 1].id;
                    assert(s[m + 1].id == t[k].id);
                }
            }
        }
        assert forall|i: int, j: int| 0 <= i < j < t.len() implies seq_lt(#[trigger] t[i].id, #[trigger] t[j].id) by {
            if i == 0 {
                assert(t[j] == u[j - 1]);
                if u[j - 1].id != n.id {
                    let m = choose|m: int| 0 <= m < rest.len() && rest[m].id == u[j - 1].id;
                    assert(s[m + 1].id == u[j - 1].id);
                }
            } else {
                assert(t[i] == u[i - 1] && t[j] == u[j - 1]);
            }
        }
    }
}

proof fn lemma_nodes_from_ascending(rows: Seq<NodeRow>)
    ensures
        nodes_ascending(nodes_from(rows)),
    decreases rows.len(),
{
    if rows.len() > 0 {
        lemma_nodes_from_ascending(rows.drop_last());
        lemma_node_insert(nodes_from(rows.drop_last()), node_of(rows.last()));
    }
}

/// A finished graph keeps at most [`EDGE_LIMIT`] edges, no two alike, and
/// lists its nodes in strictly ascending id order, so no id occurs twice.
pub proof fn lemma_graph_bounds(w: WalkView, rows: Seq<NodeRow>, g: Graph)
    requires
        walk_wf(w),
        graph_of(w, rows, g),
    ensures
        g.edges@.len() <= EDGE_LIMIT,
        forall|i: int, j: int| 0 <= i < j < g.edges@.len() ==> #[trigger] g.edges@[i]@ != #[trigger] g.edges@[j]@,
        forall|i: int, j: int| 0 <= i < j < g.nodes@.len() ==> seq_lt(#[trigger] g.nodes@[i].id@, #[trigger] g.nodes@[j].id@),
{
    lemma_nodes_from_ascending(rows);
    assert forall|i: int, j: int| 0 <= i < j < g.edges@.len() implies #[trigger] g.edges@[i]@ != #[trigger] g.edges@[j]@ by {
        assert(edge_views(g.edges@)[i] == g.edges@[i]@);
        assert(edge_views(g.edges@)[j] == g.edges@[j]@);
    }
    assert forall|i: int, j: int| 0 <= i < j < g.nodes@.len() implies seq_lt(#[trigger] g.nodes@[i].id@, #[trigger] g.nodes@[j].id@) by {
        let ns = nodes_from(rows);
        assert(node_views(g.nodes@)[i] == g.nodes@[i]@);
        assert(node_views(g.nodes@)[j] == g.nodes@[j]@);
        assert(ns[i] == g.nodes@[i]@ && ns[j] == g.nodes@[j]@);
        assert(seq_lt(ns[i].id, ns[j].id));
    }
}

/// Every node built from the rows carries the id of one of the rows.
proof fn lemma_nodes_from_ids(rows: Seq<NodeRow>)
    ensures
        forall|k: int| 0 <= k < nodes_from(rows).len() ==> exists|i: int| 0 <= i < rows.len()
            && rows[i].id@ == #[trigger] nodes_from(rows)[k].id,
    decreases rows.len(),
{
    if rows.len() > 0 {
        let prev = rows.drop_last();
        lemma_nodes_from_ids(prev);
        lemma_nodes_from_ascending(prev);
        let r = rows.last();
        if is_id_text(r.id@) && is_id_text(r.root_id@) {
            lemma_node_insert(nodes_from(prev), node_of(r));
            assert forall|k: int| 0 <= k < nodes_from(rows).len() implies exists|i: int| 0 <= i < rows.len()
                && rows[i].id@ == #[trigger] nodes_from(rows)[k].id by {
                let t = nodes_from(rows);
                if t[k].id == node_of(r).id {
                    assert(rows[rows.len() - 1].id@ == t[k].id);
                } else {
                    let m = choose|m: int| 0 <= m < nodes_from(prev).len() && nodes_from(prev)[m].id == t[k].id;
                    let i = choose|i: int| 0 <= i < prev.len() && prev[i].id@ == #[trigger] nodes_from(prev)[m].id;
                    assert(rows[i] == prev[i]);
                }
            }
        } else {
            assert forall|k: int| 0 <= k < nodes_from(rows).len() implies exists|i: int| 0 <= i < rows.len()
                && rows[i].id@ == #[trigger] nodes_from(rows)[k].id by {
                let i = choose|i: int| 0 <= i < prev.len() && prev[i].id@ == #[trigger] nodes_from(prev)[k].id;
                assert(rows[i] == prev[i]);
            }
        }
    }
}

/// Where the node rows answer the node query (every row's id is one the
/// walk visited), the graph holds at most [`NODE_LIMIT`] nodes, each of
/// them a visited block.
pub proof fn lemma_graph_node_cap(w: WalkView, rows: Seq<NodeRow>, g: Graph)
    requires
        walk_wf(w),
        graph_of(w, rows, g),
        forall|i: int| 0 <= i < rows.len() ==> w.visited.contains(#[trigger] rows[i].id@),
    ensures
        g.nodes@.len() <= NODE_LIMIT,
        forall|k: int| 0 <= k < g.nodes@.len() ==> w.visited.contains(#[trigger] g.nodes@[k].id@),
{
    let ns = nodes_from(rows);
    lemma_nodes_from_ids(rows);
    lemma_nodes_from_ascending(rows);
    let ids = Seq::new(ns.len(), |k: int| ns[k].id);
    assert forall|k: int| 0 <= k < ids.len() implies w.visited.contains(#[trigger] ids[k]) by {
        let i = choose|i: int| 0 <= i < rows.len() && rows[i].id@ == #[trigger] ns[k].id;
    }
    assert(ids.no_duplicates()) by {
        assert forall|i: int, j: int| 0 <= i < ids.len() && 0 <= j < ids.len() && i != j implies ids[i] != ids[j] by {
            if i < j {
                assert(seq_lt(ns[i].id, ns[j].id));
                lemma_seq_lt_irreflexive(ns[i].id);
            } else {
                assert(seq_lt(ns[j].id, ns[i].id));
                lemma_seq_lt_irreflexive(ns[j].id);
            }
        }
    }
    ids.unique_seq_to_set();
    w.visited.lemma_cardinality_of_set();
    assert(ids.to_set().subset_of(w.visited.to_set())) by {
        assert forall|x: Seq<char>| ids.to_set().contains(x) implies w.visited.to_set().contains(x) by {
            let k = choose|k: int| 0 <= k < ids.len() && ids[k] == x;
            assert(w.visited.contains(ids[k]));
        }
    }
    vstd::seq_lib::seq_to_set_is_finite(w.visited);
    vstd::set_lib::lemma_len_subset(ids.to_set(), w.visited.to_set());
    assert(g.nodes@.len() == ns.len()) by {
        assert(node_views(g.nodes@).len() == g.nodes@.len());
    }
    assert forall|k: int| 0 <= k < g.nodes@.len() implies w.visited.contains(#[trigger] g.nodes@[k].id@) by {
        assert(node_views(g.nodes@)[k] == g.nodes@[k]@);
        assert(ids[k] == ns[k].id);
    }
}

// ---------------------------------------------------------------------------
// Reach of the walk
// ---------------------------------------------------------------------------

/// One hop of a walk in direction `d` over the reference relation `refs`
/// (`refs(a, b)`: block `a` references block `b`).
pub open spec fn hop(refs: spec_fn(Seq<char>, Seq<char>) -> bool, d: Direction, u: Seq<char>, v: Seq<char>) -> bool {
    (follows_outgoing(d) && refs(u, v)) || (d != Direction::Outgoing && refs(v, u))
}

/// `p` is a walk of hops from its first block to its last.
pub open spec fn hop_path(refs: spec_fn(Seq<char>, Seq<char>) -> bool, d: Direction, p: Seq<Seq<char>>) -> bool {
    &&& p.len() >= 1
    &&& forall|i: int| 0 <= i < p.len() - 1 ==> hop(refs, d, #[trigger] p[i], p[i + 1])
}

/// `v` is at most `n` hops from `c`.
pub open spec fn within(refs: spec_fn(Seq<char>, Seq<char>) -> bool, d: Direction, c: Seq<char>, v: Seq<char>, n: nat) -> bool {
    exists|p: Seq<Seq<char>>| #[trigger] hop_path(refs, d, p) && p[0] == c && p.last() == v && p.len() <= n + 1
}

proof fn lemma_within_start(refs: spec_fn(Seq<char>, Seq<char>) -> bool, d: Direction, c: Seq<char>, n: nat)
    ensures
        within(refs, d, c, c, n),
{
    let p = seq![c];
    assert(hop_path(refs, d, p));
}

proof fn lemma_within_step(refs: spec_fn(Seq<char>, Seq<char>) -> bool, d: Direction, c: Seq<char>, u: Seq<char>, v: Seq<char>, n: nat)
    requires
        within(refs, d, c, u, n),
        hop(refs, d, u, v),
    ensures
        within(refs, d, c, v, n + 1),
{
    let p = choose|p: Seq<Seq<char>>| #[trigger] hop_path(refs, d, p) && p[0] == c && p.last() == u && p.len() <= n + 1;
    let q = p.push(v);
    assert forall|i: int| 0 <= i < q.len() - 1 implies hop(refs, d, #[trigger] q[i], q[i + 1]) by {
        if i < p.len() - 1 {
            assert(q[i] == p[i] && q[i + 1] == p[i + 1]);
        } else {
            assert(q[i] == u && q[i + 1] == v);
        }
    }
    assert(hop_path(refs, d, q));
}

/// The reference rows answer the pending query: each row whose ids parse
/// is a reference whose near end is one of the blocks queried.
pub open spec fn rows_answer(refs: spec_fn(Seq<char>, Seq<char>) -> bool, w: WalkView, rows: Seq<RefRow>) -> bool {
    forall|i: int| 0 <= i < rows.len() && is_id_text((#[trigger] rows[i]).block_id@) && is_id_text(rows[i].def_block_id@) ==> {
        &&& refs(rows[i].block_id@, rows[i].def_block_id@)
        &&& (w.phase == Phase::AwaitOut ==> w.current.contains(rows[i].block_id@))
        &&& (w.phase != Phase::AwaitOut ==> w.current.contains(rows[i].def_block_id@))
    }
}

/// What the walk knows of reach: every visited, frontier and queried block
/// is within the levels completed; every queued block is one hop further;
/// and the pending pass follows the walk's direction.
pub open spec fn reach_inv(refs: spec_fn(Seq<char>, Seq<char>) -> bool, w: WalkView) -> bool {
    &&& forall|v: Seq<char>| w.visited.contains(v) ==> #[trigger] within(refs, w.direction, w.center, v, w.level)
    &&& forall|v: Seq<char>| w.frontier.contains(v) ==> #[trigger] within(refs, w.direction, w.center, v, w.level)
    &&& forall|v: Seq<char>| w.current.contains(v) ==> #[trigger] within(refs, w.direction, w.center, v, w.level)
    &&& forall|v: Seq<char>| w.next_ids.contains(v) ==> #[trigger] within(refs, w.direction, w.center, v, w.level + 1)
    &&& w.phase == Phase::AwaitOut ==> follows_outgoing(w.direction)
    &&& (w.phase == Phase::NeedIn || w.phase == Phase::AwaitIn) ==> w.direction != Direction::Outgoing
}

proof fn lemma_within_mono(refs: spec_fn(Seq<char>, Seq<char>) -> bool, d: Direction, c: Seq<char>, v: Seq<char>, n: nat)
    requires
        within(refs, d, c, v, n),
    ensures
        within(refs, d, c, v, n + 1),
    decreases n,
{
    let p = choose|p: Seq<Seq<char>>| #[trigger] hop_path(refs, d, p) && p[0] == c && p.last() == v && p.len() <= n + 1;
    assert(hop_path(refs, d, p) && p[0] == c && p.last() == v && p.len() <= (n + 1) + 1);
}

proof fn lemma_set_insert_members(s: Seq<Seq<char>>, x: Seq<char>)
    ensures
        forall|y: Seq<char>| #[trigger] set_insert(s, x).contains(y) ==> y == x || s.contains(y),
    decreases s.len(),
{
    if s.len() > 0 && !seq_lt(x, s[0]) && x != s[0] {
        let rest = s.drop_first();
        lemma_set_insert_members(rest, x);
        assert forall|y: Seq<char>| set_insert(s, x).contains(y) implies y == x || s.contains(y) by {
            let t = set_insert(s, x);
            assert(t == seq![s[0]] + set_insert(rest, x));
            let j = choose|j: int| 0 <= j < t.len() && t[j] == y;
            if j == 0 {
                assert(t[0] == s[0]);
            } else {
                assert(set_insert(rest, x)[j - 1] == y);
                assert(set_insert(rest, x).contains(y));
                if y != x {
                    let m = choose|m: int| 0 <= m < rest.len() && rest[m] == y;
                    assert(s[m + 1] == y);
                }
            }
        }
    } else if s.len() > 0 && seq_lt(x, s[0]) {
        assert forall|y: Seq<char>| set_insert(s, x).contains(y) implies y == x || s.contains(y) by {
            let t = set_insert(s, x);
            let j = choose|j: int| 0 <= j < t.len() && t[j] == y;
            if j > 0 {
                assert(s[j - 1] == y);
            }
        }
    }
}

proof fn lemma_absorb_rows_reach(refs: spec_fn(Seq<char>, Seq<char>) -> bool, w: WalkView, pass: RefPass, rows: Seq<RefRow>)
    requires
        reach_inv(refs, w),
        pass == RefPass::Outgoing ==> w.phase == Phase::AwaitOut,
        pass == RefPass::Incoming ==> w.phase != Phase::AwaitOut && w.direction != Direction::Outgoing,
        rows_answer(refs, w, rows),
    ensures
        reach_inv(refs, absorb_rows(w, pass, rows)),
    decreases rows.len(),
{
    lemma_absorb_rows_frame(w, pass, rows);
    if rows.len() > 0 {
        let dl = rows.drop_last();
        assert(rows_answer(refs, w, dl)) by {
            assert forall|i: int| 0 <= i < dl.len() && is_id_text((#[trigger] dl[i]).block_id@) && is_id_text(dl[i].def_block_id@) implies {
                &&& refs(dl[i].block_id@, dl[i].def_block_id@)
                &&& (w.phase == Phase::AwaitOut ==> w.current.contains(dl[i].block_id@))
                &&& (w.phase != Phase::AwaitOut ==> w.current.contains(dl[i].def_block_id@))
            } by {
                assert(dl[i] == rows[i]);
            }
        }
        lemma_absorb_rows_reach(refs, w, pass, dl);
        lemma_absorb_rows_frame(w, pass, dl);
        let a = absorb_rows(w, pass, dl);
        let r = rows.last();
        assert(rows[rows.len() - 1] == r);
        if a.edges.len() < EDGE_LIMIT && is_id_text(r.block_id@) && is_id_text(r.def_block_id@) {
            let far = match pass {
                RefPass::Outgoing => r.def_block_id@,
                RefPass::Incoming => r.block_id@,
            };
            let near = match pass {
                RefPass::Outgoing => r.block_id@,
                RefPass::Incoming => r.def_block_id@,
            };
            assert(w.current.contains(near));
            assert(within(refs, w.direction, w.center, near, w.level));
            assert(hop(refs, w.direction, near, far));
            lemma_within_step(refs, w.direction, w.center, near, far, w.level);
            lemma_set_insert_members(a.next_ids, far);
        }
    }
}

proof fn lemma_admit_all_reach(refs: spec_fn(Seq<char>, Seq<char>) -> bool, w: WalkView, ids: Seq<Seq<char>>)
    requires
        forall|v: Seq<char>| w.visited.contains(v) ==> #[trigger] within(refs, w.direction, w.center, v, w.level + 1),
        forall|v: Seq<char>| w.frontier.contains(v) ==> #[trigger] within(refs, w.direction, w.center, v, w.level + 1),
        forall|v: Seq<char>| ids.contains(v) ==> #[trigger] within(refs, w.direction, w.center, v, w.level + 1),
    ensures
        ({
            let a = admit_all(w, ids);
            &&& a.level == w.level && a.direction == w.direction && a.center == w.center
            &&& forall|v: Seq<char>| a.visited.contains(v) ==> #[trigger] within(refs, w.direction, w.center, v, w.level + 1)
            &&& forall|v: Seq<char>| a.frontier.contains(v) ==> #[trigger] within(refs, w.direction, w.center, v, w.level + 1)
        }),
    decreases ids.len(),
{
    if ids.len() > 0 {
        let dl = ids.drop_last();
        assert forall|v: Seq<char>| dl.contains(v) implies #[trigger] within(refs, w.direction, w.center, v, w.level + 1) by {
            let j = choose|j: int| 0 <= j < dl.len() && dl[j] == v;
            assert(ids[j] == v);
        }
        lemma_admit_all_reach(refs, w, dl);
        let p = admit_all(w, dl);
        let x = ids.last();
        assert(ids.contains(x));
        if p.visited.len() < NODE_LIMIT {
            lemma_set_insert_members(p.visited, x);
            assert forall|v: Seq<char>| p.frontier.push(x).contains(v) implies #[trigger] within(refs, w.direction, w.center, v, w.level + 1) by {
                let j = choose|j: int| 0 <= j < p.frontier.push(x).len() && p.frontier.push(x)[j] == v;
                if j < p.frontier.len() {
                    assert(p.frontier[j] == v);
                }
            }
        }
    }
}

proof fn lemma_end_level_reach(refs: spec_fn(Seq<char>, Seq<char>) -> bool, w: WalkView)
    requires
        reach_inv(refs, w),
    ensures
        reach_inv(refs, end_level(w)),
{
    assert forall|v: Seq<char>| w.visited.contains(v) implies #[trigger] within(refs, w.direction, w.center, v, w.level + 1) by {
        lemma_within_mono(refs, w.direction, w.center, v, w.level);
    }
    assert forall|v: Seq<char>| w.frontier.contains(v) implies #[trigger] within(refs, w.direction, w.center, v, w.level + 1) by {
        lemma_within_mono(refs, w.direction, w.center, v, w.level);
    }
    lemma_admit_all_reach(refs, w, w.next_ids);
}

proof fn lemma_advance_reach(refs: spec_fn(Seq<char>, Seq<char>) -> bool, w: WalkView)
    requires
        reach_inv(refs, w),
    ensures
        reach_inv(refs, advance(w).0),
    decreases levels_left(w),
{
    match w.phase {
        Phase::NeedIn => {},
        _ => {
            if w.level >= w.depth || w.frontier.len() == 0 {
            } else {
                let s = WalkView { current: w.frontier, frontier: Seq::empty(), next_ids: Seq::empty(), ..w };
                if follows_outgoing(w.direction) {
                } else if s.edges.len() < EDGE_LIMIT {
                } else {
                    lemma_end_level_reach(refs, s);
                    let e = end_level(s);
                    assert(levels_left(e) < levels_left(w)) by {
                        assert(e.level == w.level + 1);
                    }
                    lemma_advance_reach(refs, e);
                }
            }
        },
    }
}

/// Where every reply answers its reference query faithfully, the walk
/// only ever reaches blocks within as many hops of the centre (in its
/// direction) as the levels it has completed: the initial state holds
/// only the centre; each step keeps this. With [`walk_wf`] (level at most
/// the depth) and [`lemma_graph_node_cap`], every node of the finished
/// graph lies within `depth` hops of the centre.
pub proof fn lemma_walk_reach(refs: spec_fn(Seq<char>, Seq<char>) -> bool, w: WalkView, rows: Seq<RefRow>)
    ensures
        reach_inv(refs, initial_walk(w.center, w.depth, w.direction)),
        reach_inv(refs, w) ==> reach_inv(refs, advance(w).0),
        reach_inv(refs, w) && (w.phase == Phase::AwaitOut || w.phase == Phase::AwaitIn) && rows_answer(refs, w, rows)
            ==> reach_inv(refs, after_rows(w, rows)),
        reach_inv(refs, w) && walk_wf(w) ==> forall|v: Seq<char>| w.visited.contains(v)
            ==> #[trigger] within(refs, w.direction, w.center, v, w.depth),
{
    let w0 = initial_walk(w.center, w.depth, w.direction);
    lemma_within_start(refs, w0.direction, w0.center, w0.level);
    assert forall|v: Seq<char>| w0.visited.contains(v) implies #[trigger] within(refs, w0.direction, w0.center, v, w0.level) by {
        let j = choose|j: int| 0 <= j < w0.visited.len() && w0.visited[j] == v;
        assert(v == w0.center);
    }
    assert forall|v: Seq<char>| w0.frontier.contains(v) implies #[trigger] within(refs, w0.direction, w0.center, v, w0.level) by {
        let j = choose|j: int| 0 <= j < w0.frontier.len() && w0.frontier[j] == v;
        assert(v == w0.center);
    }
    if reach_inv(refs, w) {
        lemma_advance_reach(refs, w);
        if (w.phase == Phase::AwaitOut || w.phase == Phase::AwaitIn) && rows_answer(refs, w, rows) {
            if w.phase == Phase::AwaitOut {
                lemma_absorb_rows_reach(refs, w, RefPass::Outgoing, rows);
                let a = absorb_rows(w, RefPass::Outgoing, rows);
                lemma_absorb_rows_frame(w, RefPass::Outgoing, rows);
                if w.direction == Direction::Both && a.edges.len() < EDGE_LIMIT {
                } else {
                    lemma_end_level_reach(refs, a);
                }
            } else {
                lemma_absorb_rows_reach(refs, w, RefPass::Incoming, rows);
                lemma_end_level_reach(refs, absorb_rows(w, RefPass::Incoming, rows));
            }
        }
        if walk_wf(w) {
            assert forall|v: Seq<char>| w.visited.contains(v) implies #[trigger] within(refs, w.direction, w.center, v, w.depth) by {
                lemma_within_up_to(refs, w.direction, w.center, v, w.level, w.depth);
            }
        }
    }
}

proof fn lemma_within_up_to(refs: spec_fn(Seq<char>, Seq<char>) -> bool, d: Direction, c: Seq<char>, v: Seq<char>, n: nat, m: nat)
    requires
        within(refs, d, c, v, n),
        n <= m,
    ensures
        within(refs, d, c, v, m),
    decreases m - n,
{
    if n < m {
        lemma_within_mono(refs, d, c, v, n);
        lemma_within_up_to(refs, d, c, v, n + 1, m);
    }
}

/// The finished neighbourhood graph as a whole: where the walk kept its
/// invariant and its reach (every state reached from the start through
/// faithful answers does, see [`lemma_walk_reach`]) and the node rows answer
/// the node query, the graph carries the graph schema, the centre, the
/// depth and the direction's name; it holds at most [`NODE_LIMIT`] nodes in
/// strictly ascending id order and at most [`EDGE_LIMIT`] edges, no two
/// alike; and every node lies within `depth` hops of the centre.
pub proof fn lemma_neighborhood_graph(refs: spec_fn(Seq<char>, Seq<char>) -> bool, w: WalkView, rows: Seq<NodeRow>, g: Graph)
    requires
        walk_wf(w),
        reach_inv(refs, w),
        graph_of(w, rows, g),
        forall|i: int| 0 <= i < rows.len() ==> w.visited.contains(#[trigger] rows[i].id@),
    ensures
        g.schema@ == "siyuan-agent.graph.v1"@,
        g.center@ == w.center,
        g.depth as nat == w.depth,
        g.direction@ == direction_name(w.direction),
        g.nodes@.len() <= NODE_LIMIT,
        g.edges@.len() <= EDGE_LIMIT,
        forall|i: int, j: int| 0 <= i < j < g.edges@.len() ==> #[trigger] g.edges@[i]@ != #[trigger] g.edges@[j]@,
        forall|i: int, j: int| 0 <= i < j < g.nodes@.len() ==> seq_lt(#[trigger] g.nodes@[i].id@, #[trigger] g.nodes@[j].id@),
        forall|k: int| 0 <= k < g.nodes@.len() ==> #[trigger] within(refs, w.direction, w.center, g.nodes@[k].id@, w.depth),
{
    lemma_graph_bounds(w, rows, g);
    lemma_graph_node_cap(w, rows, g);
    lemma_walk_reach(refs, w, Seq::empty());
    assert forall|k: int| 0 <= k < g.nodes@.len() implies #[trigger] within(refs, w.direction, w.center, g.nodes@[k].id@, w.depth) by {
        assert(w.visited.contains(g.nodes@[k].id@));
    }
}

proof fn lemma_set_insert_keeps(s: Seq<Seq<char>>, x: Seq<char>)
    ensures
        set_insert(s, x).contains(x),
        forall|y: Seq<char>| s.contains(y) ==> #[trigger] set_insert(s, x).contains(y),
    decreases s.len(),
{
    let t = set_insert(s, x);
    if s.len() == 0 {
        assert(t[0] == x);
    } else if seq_lt(x, s[0]) {
        assert(t[0] == x);
        assert forall|y: Seq<char>| s.contains(y) implies #[trigger] t.contains(y) by {
            let j = choose|j: int| 0 <= j < s.len() && s[j] == y;
            assert(t[j + 1] == y);
        }
    } else if x == s[0] {
        assert(t[0] == x);
    } else {
        let rest = s.drop_first();
        lemma_set_insert_keeps(rest, x);
        let u = set_insert(rest, x);
        assert(t == seq![s[0]] + u);
        let k = choose|k: int| 0 <= k < u.len() && u[k] == x;
        assert(t[k + 1] == x);
        assert forall|y: Seq<char>| s.contains(y) implies #[trigger] t.contains(y) by {
            let j = choose|j: int| 0 <= j < s.len() && s[j] == y;
            if j == 0 {
                assert(t[0] == y);
            } else {
                assert(rest[j - 1] == y);
                assert(rest.contains(y));
                assert(u.contains(y));
                let m = choose|m: int| 0 <= m < u.len() && u[m] == y;
                assert(t[m + 1] == y);
            }
        }
    }
}

/// The block a reference row leads to in a pass: the referenced block when
/// following outgoing references, the referencing block when following
/// backlinks.
pub open spec fn row_target(pass: RefPass, r: RefRow) -> Seq<char> {
    match pass {
        RefPass::Outgoing => r.def_block_id@,
        RefPass::Incoming => r.block_id@,
    }
}

/// A reply absorbed without running out of edge budget loses nothing:
/// every row whose two ids parse has its edge kept, and the block it leads
/// to (the referencing block, for backlinks) is already visited or queued
/// for the next level; what was queued before stays queued.
pub proof fn lemma_reply_queues_targets(w: WalkView, pass: RefPass, rows: Seq<RefRow>)
    requires
        !absorb_rows(w, pass, rows).truncated,
    ensures
        forall|y: Seq<char>| w.next_ids.contains(y) ==> #[trigger] absorb_rows(w, pass, rows).next_ids.contains(y),
        forall|k: int| 0 <= k < rows.len() && is_id_text(#[trigger] rows[k].block_id@) && is_id_text(rows[k].def_block_id@) ==> {
            &&& absorb_rows(w, pass, rows).edges.contains((rows[k].block_id@, rows[k].def_block_id@, rows[k].content@))
            &&& (pass == RefPass::Incoming ==> w.visited.contains(rows[k].block_id@)
                || absorb_rows(w, pass, rows).next_ids.contains(rows[k].block_id@))
            &&& (pass == RefPass::Outgoing ==> w.visited.contains(rows[k].def_block_id@)
                || absorb_rows(w, pass, rows).next_ids.contains(rows[k].def_block_id@))
        },
    decreases rows.len(),
{
    if rows.len() > 0 {
        let pre = rows.drop_last();
        let a = absorb_rows(w, pass, pre);
        let r = rows.last();
        let b = absorb_row(a, pass, r);
        assert(absorb_rows(w, pass, rows) == b);
        assert(!a.truncated);
        assert(a.edges.len() < EDGE_LIMIT);
        lemma_absorb_rows_frame(w, pass, pre);
        lemma_reply_queues_targets(w, pass, pre);
        if is_id_text(r.block_id@) && is_id_text(r.def_block_id@) {
            lemma_set_insert_keeps(a.next_ids, row_target(pass, r));
            let e: EdgeView = (r.block_id@, r.def_block_id@, r.content@);
            assert(b.edges.contains(e)) by {
                if !a.edges.contains(e) {
                    assert(b.edges[a.edges.len() as int] == e);
                }
            }
            assert forall|x: EdgeView| a.edges.contains(x) implies #[trigger] b.edges.contains(x) by {
                let j = choose|j: int| 0 <= j < a.edges.len() && a.edges[j] == x;
                assert(b.edges[j] == x);
            }
        }
        assert forall|k: int| 0 <= k < rows.len() && is_id_text(#[trigger] rows[k].block_id@) && is_id_text(rows[k].def_block_id@) implies {
            &&& b.edges.contains((rows[k].block_id@, rows[k].def_block_id@, rows[k].content@))
            &&& (pass == RefPass::Incoming ==> w.visited.contains(rows[k].block_id@) || b.next_ids.contains(rows[k].block_id@))
            &&& (pass == RefPass::Outgoing ==> w.visited.contains(rows[k].def_block_id@) || b.next_ids.contains(rows[k].def_block_id@))
        } by {
            if k < rows.len() - 1 {
                assert(pre[k] == rows[k]);
            } else {
                assert(rows[k] == r);
            }
        }
    }
}

} // verus!
