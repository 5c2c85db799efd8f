//! Per-block relation summaries: outgoing references, the number of
//! incoming references, and tags, for a set of blocks.

use vstd::prelude::*;

use crate::block::id_texts;
use crate::doc_meta::{quote_id_list, quoted_id_list};
use crate::ids::{is_id_text, BlockId};
use crate::graph::{ascending, lemma_set_insert, set_insert};
use crate::text::{chars_lt, chars_of, owned, push_str, seq_lt};

verus! {

/// One outgoing reference.
#[derive(Debug)]
pub struct RefHint {
    pub source_id: BlockId,
    pub target_id: BlockId,
    pub anchor: String,
}

/// What is known of one block's relations.
#[derive(Debug)]
pub struct BlockRelationSummary {
    pub outgoing_refs: Vec<RefHint>,
    pub incoming_refs_count: usize,
    pub tags: Vec<String>,
}

impl Default for BlockRelationSummary {
    fn default() -> (r: Self)
        ensures
            r@ == empty_summary(),
    {
        let r = BlockRelationSummary { outgoing_refs: Vec::new(), incoming_refs_count: 0, tags: Vec::new() };
        assert(hint_views(r.outgoing_refs@) =~= Seq::<HintView>::empty());
        assert(tag_views(r.tags@) =~= Seq::<Seq<char>>::empty());
        r
    }
}

/// Model of a [`RefHint`]: source, target, anchor.
pub type HintView = (Seq<char>, Seq<char>, Seq<char>);

/// Model of a [`BlockRelationSummary`].
pub struct SummaryView {
    pub outgoing: Seq<HintView>,
    pub incoming: nat,
    pub tags: Seq<Seq<char>>,
}

/// Models of a list of hints.
pub open spec fn hint_views(v: Seq<RefHint>) -> Seq<HintView> {
    v.map_values(|h: RefHint| (h.source_id@, h.target_id@, h.anchor@))
}

/// Texts of a list of tags.
pub open spec fn tag_views(v: Seq<String>) -> Seq<Seq<char>> {
    v.map_values(|s: String| s@)
}

impl View for BlockRelationSummary {
    type V = SummaryView;

    open spec fn view(&self) -> SummaryView {
        SummaryView {
            outgoing: hint_views(self.outgoing_refs@),
            incoming: self.incoming_refs_count as nat,
            tags: tag_views(self.tags@),
        }
    }
}

/// The summary of a block with no relations.
pub open spec fn empty_summary() -> SummaryView {
    SummaryView { outgoing: Seq::empty(), incoming: 0, tags: Seq::empty() }
}

/// A row of the outgoing-reference query.
#[derive(Debug)]
pub struct OutgoingRow {
    pub block_id: String,
    pub def_block_id: String,
    pub content: String,
}

/// A row of the incoming-count query.
#[derive(Debug)]
pub struct IncomingRow {
    pub def_block_id: String,
    pub n: i64,
}

/// A row of the tag query.
#[derive(Debug)]
pub struct TagSpanRow {
    pub block_id: String,
    pub content: String,
}

/// One change to the summary of a block.
pub enum RelOp {
    /// Make sure the block has a summary.
    Touch,
    /// Append an outgoing reference.
    Out(HintView),
    /// Set the incoming count.
    In(nat),
    /// Append a tag.
    Tag(Seq<char>),
}

/// The summary after one change.
pub open spec fn apply_op(s: SummaryView, op: RelOp) -> SummaryView {
    match op {
        RelOp::Touch => s,
        RelOp::Out(h) => SummaryView { outgoing: s.outgoing.push(h), ..s },
        RelOp::In(n) => SummaryView { incoming: n, ..s },
        RelOp::Tag(t) => SummaryView { tags: s.tags.push(t), ..s },
    }
}

/// Applies a change to the entry for `k` of a list ordered by id, creating
/// the entry (with an empty summary) when there is none.
pub open spec fn upsert(m: Seq<(Seq<char>, SummaryView)>, k: Seq<char>, op: RelOp) -> Seq<(Seq<char>, SummaryView)>
    decreases m.len(),
{
    if m.len() == 0 {
        seq![(k, apply_op(empty_summary(), op))]
    } else if seq_lt(k, m[0].0) {
        seq![(k, apply_op(empty_summary(), op))] + m
    } else if k == m[0].0 {
        seq![(k, apply_op(m[0].1, op))] + m.drop_first()
    } else {
        seq![m[0]] + upsert(m.drop_first(), k, op)
    }
}

/// An entry for every requested id.
pub open spec fn touched(m: Seq<(Seq<char>, SummaryView)>, ids: Seq<Seq<char>>) -> Seq<(Seq<char>, SummaryView)>
    decreases ids.len(),
{
    if ids.len() == 0 { m } else { upsert(touched(m, ids.drop_last()), ids.last(), RelOp::Touch) }
}

/// The outgoing rows folded in: rows whose ids parse append a reference to
/// their source's entry.
pub open spec fn with_outgoing(m: Seq<(Seq<char>, SummaryView)>, rows: Seq<OutgoingRow>) -> Seq<(Seq<char>, SummaryView)>
    decreases rows.len(),
{
    if rows.len() == 0 {
        m
    } else {
        let p = with_outgoing(m, rows.drop_last());
        let r = rows.last();
        if is_id_text(r.block_id@) && is_id_text(r.def_block_id@) {
            upsert(p, r.block_id@, RelOp::Out((r.block_id@, r.def_block_id@, r.content@)))
        } else {
            p
        }
    }
}

/// The incoming rows folded in: rows whose id parses set the count of its
/// entry (the count converted as `as usize` converts it).
pub open spec fn with_incoming(m: Seq<(Seq<char>, SummaryView)>, rows: Seq<IncomingRow>) -> Seq<(Seq<char>, SummaryView)>
    decreases rows.len(),
{
    if rows.len() == 0 {
        m
    } else {
        let p = with_incoming(m, rows.drop_last());
        let r = rows.last();
        if is_id_text(r.def_block_id@) { upsert(p, r.def_block_id@, RelOp::In((r.n as usize) as nat)) } else { p }
    }
}

/// The tag rows folded in: rows whose id parses append their tag.
pub open spec fn with_tags(m: Seq<(Seq<char>, SummaryView)>, rows: Seq<TagSpanRow>) -> Seq<(Seq<char>, SummaryView)>
    decreases rows.len(),
{
    if rows.len() == 0 {
        m
    } else {
        let p = with_tags(m, rows.drop_last());
        let r = rows.last();
        if is_id_text(r.block_id@) { upsert(p, r.block_id@, RelOp::Tag(r.content@)) } else { p }
    }
}

/// The summaries of a request: an entry for every requested id, then the
/// outgoing, incoming and tag rows, in that order, ordered by id.
pub open spec fn summaries(ids: Seq<Seq<char>>, out: Seq<OutgoingRow>, inc: Seq<IncomingRow>, tags: Seq<TagSpanRow>) -> Seq<(Seq<char>, SummaryView)> {
    with_tags(with_incoming(with_outgoing(touched(Seq::empty(), ids), out), inc), tags)
}

/// Models of the entries.
pub open spec fn entry_views(v: Seq<(BlockId, BlockRelationSummary)>) -> Seq<(Seq<char>, SummaryView)> {
    v.map_values(|e: (BlockId, BlockRelationSummary)| (e.0@, e.1@))
}

/// The three statements of a relation request over the given ids.
pub open spec fn relation_queries(ids: Seq<Seq<char>>) -> (Seq<char>, Seq<char>, Seq<char>) {
    (
        "SELECT block_id, def_block_id, content FROM refs WHERE block_id IN ("@ + quoted_id_list(ids) + ")"@,
        "SELECT def_block_id, COUNT(*) AS n FROM refs WHERE def_block_id IN ("@ + quoted_id_list(ids)
            + ") GROUP BY def_block_id"@,
        "SELECT block_id, content FROM spans WHERE type LIKE '%tag%' AND block_id IN ("@ + quoted_id_list(ids) + ")"@,
    )
}

/// The outgoing, incoming-count and tag statements for the given blocks;
/// `None` for no blocks, whose summary map is empty without any query.
pub fn relation_sql(block_ids: &Vec<BlockId>) -> (r: Option<(String, String, String)>)
    ensures
        block_ids@.len() == 0 <==> r is None,
        r matches Some((a, b, c)) ==> (a@, b@, c@) == relation_queries(id_texts(block_ids@)),
{
    if block_ids.len() == 0 {
        return None;
    }
    let list = quote_id_list(block_ids);
    let mut a = owned("SELECT block_id, def_block_id, content FROM refs WHERE block_id IN (");
    push_str(&mut a, list.as_str());
    push_str(&mut a, ")");
    let mut b = owned("SELECT def_block_id, COUNT(*) AS n FROM refs WHERE def_block_id IN (");
    push_str(&mut b, list.as_str());
    push_str(&mut b, ") GROUP BY def_block_id");
    let mut c = owned("SELECT block_id, content FROM spans WHERE type LIKE '%tag%' AND block_id IN (");
    push_str(&mut c, list.as_str());
    push_str(&mut c, ")");
    Some((a, b, c))
}

/// Exec form of a change.
enum Change {
    Touch,
    Out(RefHint),
    In(usize),
    Tag(String),
}

spec fn change_view(c: Change) -> RelOp {
    match c {
        Change::Touch => RelOp::Touch,
        Change::Out(h) => RelOp::Out((h.source_id@, h.target_id@, h.anchor@)),
        Change::In(n) => RelOp::In(n as nat),
        Change::Tag(t) => RelOp::Tag(t@),
    }
}

fn apply_change(s: &mut BlockRelationSummary, c: Change)
    ensures
        final(s)@ == apply_op(old(s)@, change_view(c)),
{
    match c {
        Change::Touch => {},
        Change::Out(h) => {
            let ghost before = s.outgoing_refs@;
            let ghost hv = (h.source_id@, h.target_id@, h.anchor@);
            s.outgoing_refs.push(h);
            assert(hint_views(s.outgoing_refs@) =~= hint_views(before).push(hv));
        },
        Change::In(n) => {
            s.incoming_refs_count = n;
        },
        Change::Tag(t) => {
            let ghost before = s.tags@;
            let ghost tv = t@;
            s.tags.push(t);
            assert(tag_views(s.tags@) =~= tag_views(before).push(tv));
        },
    }
}

/// Where [`upsert`] applies a change for `k`: at index `j`, appending
/// (action 0), inserting before (1) or at an existing entry (2).
fn entry_point(m: &Vec<(BlockId, BlockRelationSummary)>, k: &BlockId) -> (res: (usize, u8))
    ensures
        res.0 <= m@.len(),
        res.1 <= 2,
        res.1 == 0 ==> res.0 == m@.len() && forall|op: RelOp| #[trigger] upsert(entry_views(m@), k@, op)
            == entry_views(m@) + seq![(k@, apply_op(empty_summary(), op))],
        res.1 == 1 ==> res.0 < m@.len() && forall|op: RelOp| #[trigger] upsert(entry_views(m@), k@, op)
            == entry_views(m@).take(res.0 as int) + (seq![(k@, apply_op(empty_summary(), op))] + entry_views(m@).skip(res.0 as int)),
        res.1 == 2 ==> res.0 < m@.len() && m@[res.0 as int].0@ == k@ && forall|op: RelOp| #[trigger] upsert(entry_views(m@), k@, op)
            == entry_views(m@).take(res.0 as int) + (seq![(k@, apply_op(m@[res.0 as int].1@, op))] + entry_views(m@).skip(res.0 as int + 1)),
{
    let ghost s = entry_views(m@);
    let kc = chars_of(k.as_str());
    let len = m.len();
    let mut j: usize = 0;
    assert(s.skip(0) =~= s);
    assert(s.take(0) =~= Seq::<(Seq<char>, SummaryView)>::empty());
    while j < len
        invariant
            len == m@.len(),
            s == entry_views(m@),
            kc@ == k@,
            j <= len,
            forall|op: RelOp| #[trigger] upsert(s, k@, op) == s.take(j as int) + upsert(s.skip(j as int), k@, op),
        decreases len - j,
    {
        let ghost rest = s.skip(j as int);
        assert(rest[0] == (m@[j as int].0@, m@[j as int].1@));
        let ec = chars_of(m[j].0.as_str());
        if chars_lt(kc.as_slice(), ec.as_slice()) {
            assert forall|op: RelOp| #[trigger] upsert(s, k@, op)
                == s.take(j as int) + (seq![(k@, apply_op(empty_summary(), op))] + s.skip(j as int)) by {
                assert(upsert(rest, k@, op) == seq![(k@, apply_op(empty_summary(), op))] + rest);
            }
            return (j, 1);
        }
        if m[j].0.same(k) {
            assert forall|op: RelOp| #[trigger] upsert(s, k@, op)
                == s.take(j as int) + (seq![(k@, apply_op(m@[j as int].1@, op))] + s.skip(j + 1)) by {
                assert(rest.drop_first() =~= s.skip(j + 1));
                assert(upsert(rest, k@, op) == seq![(k@, apply_op(rest[0].1, op))] + rest.drop_first());
            }
            return (j, 2);
        }
        assert forall|op: RelOp| #[trigger] upsert(s, k@, op) == s.take(j + 1) + upsert(s.skip(j + 1), k@, op) by {
            assert(rest.drop_first() =~= s.skip(j + 1));
            assert(s.take(j as int) + (seq![rest[0]] + upsert(s.skip(j + 1), k@, op))
                =~= s.take(j + 1) + upsert(s.skip(j + 1), k@, op));
        }
        j = j + 1;
    }
    assert forall|op: RelOp| #[trigger] upsert(s, k@, op) == s + seq![(k@, apply_op(empty_summary(), op))] by {
        assert(s.skip(len as int) =~= Seq::<(Seq<char>, SummaryView)>::empty());
        assert(s.take(len as int) =~= s);
    }
    (len, 0)
}

/// Applies a change to the entry for `k`, creating it when missing.
fn upsert_exec(m: &mut Vec<(BlockId, BlockRelationSummary)>, k: &BlockId, c: Change)
    ensures
        entry_views(final(m)@) == upsert(entry_views(old(m)@), k@, change_view(c)),
{
    let ghost s = entry_views(m@);
    let ghost op = change_view(c);
    let (j, action) = entry_point(m, k);
    assert(upsert(s, k@, op) == upsert(entry_views(m@), k@, op));
    if action == 2 {
        let (key, mut summary) = m.remove(j);
        apply_change(&mut summary, c);
        m.insert(j, (key, summary));
        assert(entry_views(m@) =~= s.take(j as int) + (seq![(k@, apply_op(s[j as int].1, op))] + s.skip(j + 1)));
    } else {
        let mut summary = BlockRelationSummary::default();
        apply_change(&mut summary, c);
        if action == 0 {
            m.push((k.duplicate(), summary));
            assert(entry_views(m@) =~= s + seq![(k@, apply_op(empty_summary(), op))]);
        } else {
            m.insert(j, (k.duplicate(), summary));
            assert(entry_views(m@) =~= s.take(j as int) + (seq![(k@, apply_op(empty_summary(), op))] + s.skip(j as int)));
        }
    }
}

/// Builds the relation summaries from the rows of the three statements:
/// one entry per requested id (more when rows name other blocks), ordered
/// by id; rows whose ids do not parse are skipped.
pub fn summarize_relations(
    block_ids: &Vec<BlockId>,
    outgoing: &Vec<OutgoingRow>,
    incoming: &Vec<IncomingRow>,
    tags: &Vec<TagSpanRow>,
) -> (r: Vec<(BlockId, BlockRelationSummary)>)
    ensures
        entry_views(r@) == summaries(id_texts(block_ids@), outgoing@, incoming@, tags@),
{
    let mut m: Vec<(BlockId, BlockRelationSummary)> = Vec::new();
    let ghost e0 = Seq::<(Seq<char>, SummaryView)>::empty();
    assert(entry_views(m@) =~= e0);
    let mut i: usize = 0;
    assert(id_texts(block_ids@).take(0) =~= Seq::<Seq<char>>::empty());
    while i < block_ids.len()
        invariant
            i <= block_ids@.len(),
            entry_views(m@) == touched(e0, id_texts(block_ids@).take(i as int)),
        decreases block_ids@.len() - i,
    {
        proof {
            let t = id_texts(block_ids@).take(i + 1);
            assert(t.drop_last() =~= id_texts(block_ids@).take(i as int));
            assert(t.last() == block_ids@[i as int]@);
        }
        upsert_exec(&mut m, &block_ids[i], Change::Touch);
        i = i + 1;
    }
    assert(id_texts(block_ids@).take(block_ids@.len() as int) =~= id_texts(block_ids@));
    let ghost m1 = entry_views(m@);
    let mut i: usize = 0;
    assert(outgoing@.take(0) =~= Seq::<OutgoingRow>::empty());
    while i < outgoing.len()
        invariant
            i <= outgoing@.len(),
            entry_views(m@) == with_outgoing(m1, outgoing@.take(i as int)),
        decreases outgoing@.len() - i,
    {
        proof {
            assert(outgoing@.take(i + 1).drop_last() =~= outgoing@.take(i as int));
            assert(outgoing@.take(i + 1).last() == outgoing@[i as int]);
        }
        let r = &outgoing[i];
        match (BlockId::parse(r.block_id.as_str()), BlockId::parse(r.def_block_id.as_str())) {
            (Ok(src), Ok(tgt)) => {
                let h = RefHint { source_id: src.duplicate(), target_id: tgt, anchor: r.content.clone() };
                upsert_exec(&mut m, &src, Change::Out(h));
            },
            _ => {},
        }
        i = i + 1;
    }
    assert(outgoing@.take(outgoing@.len() as int) =~= outgoing@);
    let ghost m2 = entry_views(m@);
    let mut i: usize = 0;
    assert(incoming@.take(0) =~= Seq::<IncomingRow>::empty());
    while i < incoming.len()
        invariant
            i <= incoming@.len(),
            entry_views(m@) == with_incoming(m2, incoming@.take(i as int)),
        decreases incoming@.len() - i,
    {
        proof {
            assert(incoming@.take(i + 1).drop_last() =~= incoming@.take(i as int));
            assert(incoming@.take(i + 1).last() == incoming@[i as int]);
        }
        let r = &incoming[i];
        match BlockId::parse(r.def_block_id.as_str()) {
            Ok(id) => {
                let n = r.n as usize;
                upsert_exec(&mut m, &id, Change::In(n));
            },
            Err(_) => {},
        }
        i = i + 1;
    }
    assert(incoming@.take(incoming@.len() as int) =~= incoming@);
    let ghost m3 = entry_views(m@);
    let mut i: usize = 0;
    assert(tags@.take(0) =~= Seq::<TagSpanRow>::empty());
    while i < tags.len()
        invariant
            i <= tags@.len(),
            entry_views(m@) == with_tags(m3, tags@.take(i as int)),
        decreases tags@.len() - i,
    {
        proof {
            assert(tags@.take(i + 1).drop_last() =~= tags@.take(i as int));
            assert(tags@.take(i + 1).last() == tags@[i as int]);
        }
        let r = &tags[i];
        match BlockId::parse(r.block_id.as_str()) {
            Ok(id) => {
                upsert_exec(&mut m, &id, Change::Tag(r.content.clone()));
            },
            Err(_) => {},
        }
        i = i + 1;
    }
    assert(tags@.take(tags@.len() as int) =~= tags@);
    m
}


// ---------------------------------------------------------------------------
// Laws
// ---------------------------------------------------------------------------

/// The ids of the entries.
pub open spec fn entry_keys(m: Seq<(Seq<char>, SummaryView)>) -> Seq<Seq<char>> {
    m.map_values(|e: (Seq<char>, SummaryView)| e.0)
}

proof fn lemma_upsert_keys(m: Seq<(Seq<char>, SummaryView)>, k: Seq<char>, op: RelOp)
    ensures
        entry_keys(upsert(m, k, op)) == set_insert(entry_keys(m), k),
    decreases m.len(),
{
    let km = entry_keys(m);
    if m.len() == 0 {
        assert(entry_keys(upsert(m, k, op)) =~= seq![k]);
    } else if seq_lt(k, m[0].0) {
        assert(entry_keys(upsert(m, k, op)) =~= seq![k] + km);
    } else if k == m[0].0 {
        assert(entry_keys(upsert(m, k, op)) =~= km);
    } else {
        lemma_upsert_keys(m.drop_first(), k, op);
        assert(entry_keys(m.drop_first()) =~= km.drop_first());
        assert(entry_keys(upsert(m, k, op)) =~= seq![km[0]] + set_insert(km.drop_first(), k));
    }
}

/// Entries ascending by id, and every id of `a` present in `b`.
pub open spec fn grows_from(a: Seq<(Seq<char>, SummaryView)>, b: Seq<(Seq<char>, SummaryView)>) -> bool {
    &&& ascending(entry_keys(b))
    &&& forall|x: Seq<char>| entry_keys(a).contains(x) ==> entry_keys(b).contains(x)
}

proof fn lemma_upsert_grows(m: Seq<(Seq<char>, SummaryView)>, k: Seq<char>, op: RelOp)
    requires
        ascending(entry_keys(m)),
    ensures
        grows_from(m, upsert(m, k, op)),
        entry_keys(upsert(m, k, op)).contains(k),
{
    lemma_upsert_keys(m, k, op);
    lemma_set_insert(entry_keys(m), k);
}

proof fn lemma_touched(m: Seq<(Seq<char>, SummaryView)>, ids: Seq<Seq<char>>)
    requires
        ascending(entry_keys(m)),
    ensures
        grows_from(m, touched(m, ids)),
        forall|i: int| 0 <= i < ids.len() ==> entry_keys(touched(m, ids)).contains(#[trigger] ids[i]),
    decreases ids.len(),
{
    if ids.len() > 0 {
        let p = touched(m, ids.drop_last());
        lemma_touched(m, ids.drop_last());
        lemma_upsert_grows(p, ids.last(), RelOp::Touch);
        assert forall|i: int| 0 <= i < ids.len() implies entry_keys(touched(m, ids)).contains(#[trigger] ids[i]) by {
            if i < ids.len() - 1 {
                assert(ids.drop_last()[i] == ids[i]);
            }
        }
    }
}

proof fn lemma_with_outgoing(m: Seq<(Seq<char>, SummaryView)>, rows: Seq<OutgoingRow>)
    requires
        ascending(entry_keys(m)),
    ensures
        grows_from(m, with_outgoing(m, rows)),
    decreases rows.len(),
{
    if rows.len() > 0 {
        lemma_with_outgoing(m, rows.drop_last());
        let p = with_outgoing(m, rows.drop_last());
        let r = rows.last();
        lemma_upsert_grows(p, r.block_id@, RelOp::Out((r.block_id@, r.def_block_id@, r.content@)));
    }
}

proof fn lemma_with_incoming(m: Seq<(Seq<char>, SummaryView)>, rows: Seq<IncomingRow>)
    requires
        ascending(entry_keys(m)),
    ensures
        grows_from(m, with_incoming(m, rows)),
    decreases rows.len(),
{
    if rows.len() > 0 {
        lemma_with_incoming(m, rows.drop_last());
        let p = with_incoming(m, rows.drop_last());
        let r = rows.last();
        lemma_upsert_grows(p, r.def_block_id@, RelOp::In((r.n as usize) as nat));
    }
}

proof fn lemma_with_tags(m: Seq<(Seq<char>, SummaryView)>, rows: Seq<TagSpanRow>)
    requires
        ascending(entry_keys(m)),
    ensures
        grows_from(m, with_tags(m, rows)),
    decreases rows.len(),
{
    if rows.len() > 0 {
        lemma_with_tags(m, rows.drop_last());
        let p = with_tags(m, rows.drop_last());
        let r = rows.last();
        lemma_upsert_grows(p, r.block_id@, RelOp::Tag(r.content@));
    }
}

/// Every requested id has a summary, even one with no relations, and the
/// summaries come in strictly ascending id order, one per id.
pub proof fn lemma_every_id_summarized(ids: Seq<Seq<char>>, out: Seq<OutgoingRow>, inc: Seq<IncomingRow>, tags: Seq<TagSpanRow>)
    ensures
        forall|i: int| 0 <= i < ids.len() ==> entry_keys(summaries(ids, out, inc, tags)).contains(#[trigger] ids[i]),
        ascending(entry_keys(summaries(ids, out, inc, tags))),
{
    let e0 = Seq::<(Seq<char>, SummaryView)>::empty();
    assert(ascending(entry_keys(e0)));
    lemma_touched(e0, ids);
    let t = touched(e0, ids);
    lemma_with_outgoing(t, out);
    let a = with_outgoing(t, out);
    lemma_with_incoming(a, inc);
    let b = with_incoming(a, inc);
    lemma_with_tags(b, tags);
    assert forall|i: int| 0 <= i < ids.len() implies entry_keys(summaries(ids, out, inc, tags)).contains(#[trigger] ids[i]) by {
        assert(entry_keys(t).contains(ids[i]));
        assert(entry_keys(a).contains(ids[i]));
        assert(entry_keys(b).contains(ids[i]));
    }
}

} // verus!
