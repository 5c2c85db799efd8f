//! Unified document-metadata lookup: by id, or by notebook and hpath.
//!
//! The kernel round trips (notebook list, hpath-to-ids, one SQL query) are
//! made by the caller; this module builds the SQL statement, lifts the rows
//! into [`ResolvedDoc`]s and picks the single storage path that the
//! rename/move/remove endpoints need.

use vstd::prelude::*;

use crate::error::SiyuanError;
use crate::ids::{BlockId, NotebookId};
use crate::text::{chars_of, chars_rfind, last_index_of, owned, push_str, string_of_range};

verus! {

/// Per-document metadata.
#[derive(Debug)]
pub struct ResolvedDoc {
    pub id: BlockId,
    pub hpath: String,
    pub notebook_id: NotebookId,
    /// Empty when the notebook is not in the live notebook list.
    pub notebook_name: String,
    /// Last `/`-delimited segment of `hpath`.
    pub title: String,
    /// On-disk `.sy` storage path from the `blocks` table.
    pub storage_path: String,
}

/// How the caller addresses a document.
#[derive(Debug)]
pub enum DocLookup {
    ById(BlockId),
    ByHpath { notebook: NotebookId, hpath: String },
}

/// A `type='d'` row of the `blocks` table.
#[derive(Debug)]
pub struct DocRow {
    pub id: String,
    pub box_: String,
    pub hpath: String,
    pub path: String,
}

/// A notebook as listed by the kernel: id and display name.
#[derive(Debug)]
pub struct NotebookName {
    pub id: NotebookId,
    pub name: String,
}

/// The title of a document: the text after the last `/` of its hpath, or
/// the whole hpath when it has no `/`.
pub open spec fn title_of(hpath: Seq<char>) -> Seq<char> {
    match last_index_of(hpath, '/') {
        Some(i) => hpath.subrange(i + 1, hpath.len() as int),
        None => hpath,
    }
}

/// Title of a document from its hpath: the last `/`-delimited segment, so
/// `""` and `"/"` give `""`, `"/Foo/"` gives `""`, `"/A//B"` gives `"B"` and
/// `"Foo"` gives `"Foo"`.
pub fn title_from_hpath(hpath: &str) -> (r: String)
    ensures
        r@ == title_of(hpath@),
{
    let cs = chars_of(hpath);
    match chars_rfind(cs.as_slice(), '/') {
        Some(i) => string_of_range(cs.as_slice(), i + 1, cs.len()),
        None => owned(hpath),
    }
}

/// What an error message quotes for a lookup: `id:<id>` or the hpath.
pub open spec fn descriptor_of(l: DocLookup) -> Seq<char> {
    match l {
        DocLookup::ById(id) => "id:"@ + id@,
        DocLookup::ByHpath { hpath, .. } => hpath@,
    }
}

/// The quoted form of a lookup used in `NotFound` / `AmbiguousPath` errors.
pub fn lookup_descriptor(l: &DocLookup) -> (r: String)
    ensures
        r@ == descriptor_of(*l),
{
    match l {
        DocLookup::ById(id) => {
            let mut s = owned("id:");
            push_str(&mut s, id.as_str());
            s
        },
        DocLookup::ByHpath { hpath, .. } => hpath.clone(),
    }
}

/// Ids of a list of resolved documents.
pub open spec fn doc_ids(docs: Seq<ResolvedDoc>) -> Seq<Seq<char>> {
    docs.map_values(|d: ResolvedDoc| d.id@)
}

/// Reduces the matches of a lookup to exactly one `(notebook, storage
/// path)`: no match is `NotFound(descriptor)`, one match gives its pair,
/// more are `AmbiguousPath` carrying every candidate id in order.
pub fn pick_one_storage(descriptor: String, docs: Vec<ResolvedDoc>) -> (r: Result<(NotebookId, String), SiyuanError>)
    ensures
        docs@.len() == 0 ==> (r matches Err(SiyuanError::NotFound(d)) && d@ == descriptor@),
        docs@.len() == 1 ==> (r matches Ok((nb, p)) && nb@ == docs@[0].notebook_id@
            && p@ == docs@[0].storage_path@),
        docs@.len() > 1 ==> (r matches Err(SiyuanError::AmbiguousPath { hpath, candidates })
            && hpath@ == descriptor@ && crate::block::id_texts(candidates@) == doc_ids(docs@)),
{
    let n = docs.len();
    if n == 0 {
        Err(SiyuanError::NotFound(descriptor))
    } else if n == 1 {
        let mut docs = docs;
        let d = docs.pop().unwrap();
        Ok((d.notebook_id, d.storage_path))
    } else {
        let mut candidates: Vec<BlockId> = Vec::new();
        let mut i: usize = 0;
        while i < n
            invariant
                n == docs@.len(),
                i <= n,
                candidates@.len() == i,
                crate::block::id_texts(candidates@) == doc_ids(docs@.subrange(0, i as int)),
            decreases n - i,
        {
            let ghost before = candidates@;
            candidates.push(docs[i].id.duplicate());
            proof {
                assert forall|k: int| 0 <= k < i + 1 implies #[trigger] crate::block::id_texts(candidates@)[k]
                    == doc_ids(docs@.subrange(0, i + 1))[k] by {
                    if k < i {
                        assert(candidates@[k] == before[k]);
                        assert(crate::block::id_texts(before)[k] == doc_ids(docs@.subrange(0, i as int))[k]);
                    }
                }
                assert(crate::block::id_texts(candidates@) =~= doc_ids(docs@.subrange(0, i + 1)));
            }
            i = i + 1;
        }
        assert(docs@.subrange(0, n as int) =~= docs@);
        Err(SiyuanError::AmbiguousPath { hpath: descriptor, candidates })
    }
}

/// The notebook name recorded for `id`: the last listed entry with that id
/// wins, and an unlisted notebook has the empty name.
pub open spec fn notebook_name_of(nbs: Seq<NotebookName>, id: Seq<char>) -> Seq<char>
    decreases nbs.len(),
{
    if nbs.len() == 0 {
        Seq::empty()
    } else if nbs.last().id@ == id {
        nbs.last().name@
    } else {
        notebook_name_of(nbs.drop_last(), id)
    }
}

/// A listed notebook gets the name of its last entry in the list; only a
/// notebook missing from the list gets the empty name.
pub proof fn lemma_notebook_name_lookup(nbs: Seq<NotebookName>, id: Seq<char>)
    ensures
        forall|i: int| 0 <= i < nbs.len() && #[trigger] nbs[i].id@ == id
            && (forall|j: int| i < j < nbs.len() ==> nbs[j].id@ != id)
            ==> notebook_name_of(nbs, id) == nbs[i].name@,
        (forall|i: int| 0 <= i < nbs.len() ==> nbs[i].id@ != id) ==> notebook_name_of(nbs, id) == Seq::<char>::empty(),
    decreases nbs.len(),
{
    if nbs.len() > 0 {
        let pre = nbs.drop_last();
        lemma_notebook_name_lookup(pre, id);
        assert forall|i: int| 0 <= i < nbs.len() && #[trigger] nbs[i].id@ == id
            && (forall|j: int| i < j < nbs.len() ==> nbs[j].id@ != id)
            implies notebook_name_of(nbs, id) == nbs[i].name@ by {
            if i < nbs.len() - 1 {
                assert(nbs[nbs.len() - 1].id@ != id);
                assert(pre[i] == nbs[i]);
                assert forall|j: int| i < j < pre.len() implies pre[j].id@ != id by {
                    assert(pre[j] == nbs[j]);
                }
            }
        }
        if forall|i: int| 0 <= i < nbs.len() ==> nbs[i].id@ != id {
            assert(nbs[nbs.len() - 1].id@ != id);
            assert forall|i: int| 0 <= i < pre.len() implies pre[i].id@ != id by {
                assert(pre[i] == nbs[i]);
            }
        }
    }
}

/// Looks up a notebook's name.
pub fn notebook_name(nbs: &Vec<NotebookName>, id: &NotebookId) -> (r: String)
    ensures
        r@ == notebook_name_of(nbs@, id@),
{
    let mut i: usize = nbs.len();
    assert(nbs@.subrange(0, nbs@.len() as int) =~= nbs@);
    while i > 0
        invariant
            i <= nbs@.len(),
            notebook_name_of(nbs@, id@) == notebook_name_of(nbs@.subrange(0, i as int), id@),
        decreases i,
    {
        let ghost pre = nbs@.subrange(0, i as int);
        if crate::text::str_eq(nbs[i - 1].id.as_str(), id.as_str()) {
            assert(pre.last() == nbs@[i - 1]);
            return nbs[i - 1].name.clone();
        }
        assert(pre.drop_last() =~= nbs@.subrange(0, i - 1));
        i = i - 1;
    }
    String::new()
}

/// `'<id1>','<id2>',...` for a list of ids.
pub open spec fn quoted_id_list(ids: Seq<Seq<char>>) -> Seq<char>
    decreases ids.len(),
{
    if ids.len() == 0 {
        Seq::empty()
    } else if ids.len() == 1 {
        seq!['\''] + ids[0] + seq!['\'']
    } else {
        quoted_id_list(ids.drop_last()) + seq![','] + seq!['\''] + ids.last() + seq!['\'']
    }
}

/// Builds the `'<id>',...` list for an `IN (...)` clause.
pub fn quote_id_list(ids: &Vec<BlockId>) -> (r: String)
    ensures
        r@ == quoted_id_list(crate::block::id_texts(ids@)),
{
    let mut out = String::new();
    let mut i: usize = 0;
    while i < ids.len()
        invariant
            i <= ids@.len(),
            out@ == quoted_id_list(crate::block::id_texts(ids@.subrange(0, i as int))),
        decreases ids@.len() - i,
    {
        let ghost prev = crate::block::id_texts(ids@.subrange(0, i as int));
        if i > 0 {
            crate::text::push_char(&mut out, ',');
        }
        crate::text::push_char(&mut out, '\'');
        push_str(&mut out, ids[i].as_str());
        crate::text::push_char(&mut out, '\'');
        proof {
            let next = crate::block::id_texts(ids@.subrange(0, i + 1));
            assert(next.drop_last() =~= prev);
            assert(next.len() == i + 1);
            assert(next.last() == ids@[i as int]@);
            if i == 0 {
                assert(out@ =~= seq!['\''] + next[0] + seq!['\'']);
            } else {
                assert(out@ =~= quoted_id_list(prev) + seq![','] + seq!['\''] + next.last() + seq!['\'']);
            }
        }
        i = i + 1;
    }
    assert(ids@.subrange(0, ids@.len() as int) =~= ids@);
    out
}

/// The document-row query for a non-empty id list.
pub open spec fn doc_rows_query(ids: Seq<Seq<char>>) -> Seq<char> {
    "SELECT id, box, hpath, path FROM blocks WHERE id IN ("@ + quoted_id_list(ids) + ") AND type = 'd'"@
}

/// The SQL statement that fetches the document rows for `ids`, or `None`
/// when there are no ids (then nothing matches and no query is needed).
pub fn doc_rows_sql(ids: &Vec<BlockId>) -> (r: Option<String>)
    ensures
        ids@.len() == 0 <==> r is None,
        r matches Some(s) ==> s@ == doc_rows_query(crate::block::id_texts(ids@)),
{
    if ids.len() == 0 {
        return None;
    }
    let mut s = owned("SELECT id, box, hpath, path FROM blocks WHERE id IN (");
    let l = quote_id_list(ids);
    push_str(&mut s, l.as_str());
    push_str(&mut s, ") AND type = 'd'");
    Some(s)
}

/// The resolved document for a row, given that its id and notebook parse.
pub open spec fn resolved_from(r: DocRow, nbs: Seq<NotebookName>, d: ResolvedDoc) -> bool {
    &&& d.id@ == r.id@
    &&& d.hpath@ == r.hpath@
    &&& d.notebook_id@ == r.box_@
    &&& d.notebook_name@ == notebook_name_of(nbs, r.box_@)
    &&& d.title@ == title_of(r.hpath@)
    &&& d.storage_path@ == r.path@
}

/// `true` when the row's id and notebook both have the id shape.
pub open spec fn row_parses(r: DocRow) -> bool {
    crate::ids::is_id_text(r.id@) && crate::ids::is_id_text(r.box_@)
}

/// Index of the first row whose id or notebook id does not parse.
pub open spec fn first_unparsed(rows: Seq<DocRow>) -> Option<int>
    decreases rows.len(),
{
    if rows.len() == 0 {
        None
    } else {
        match first_unparsed(rows.drop_last()) {
            Some(i) => Some(i),
            None => if row_parses(rows.last()) { None } else { Some(rows.len() - 1) },
        }
    }
}

/// The parse message for a row that does not parse: the id is checked
/// before the notebook id.
pub open spec fn unparsed_message(r: DocRow) -> Seq<char> {
    if !crate::ids::is_id_text(r.id@) {
        crate::ids::id_error_message(crate::ids::IdError::Invalid(r.id))
    } else {
        crate::ids::id_error_message(crate::ids::IdError::Invalid(r.box_))
    }
}

proof fn lemma_first_unparsed_prefix(rows: Seq<DocRow>, n: int)
    requires
        0 <= n < rows.len(),
        first_unparsed(rows.take(n)) is None,
    ensures
        first_unparsed(rows.take(n + 1)) == (if row_parses(rows[n]) { None::<int> } else { Some(n) }),
{
    assert(rows.take(n + 1).drop_last() =~= rows.take(n));
}

proof fn lemma_first_unparsed_extends(rows: Seq<DocRow>, n: int)
    requires
        0 <= n < rows.len(),
        first_unparsed(rows.take(n + 1)) == Some(n),
    ensures
        first_unparsed(rows) == Some(n),
    decreases rows.len(),
{
    if rows.len() > n + 1 {
        assert(rows.drop_last().take(n + 1) =~= rows.take(n + 1));
        lemma_first_unparsed_extends(rows.drop_last(), n);
    } else {
        assert(rows.take(n + 1) =~= rows);
    }
}

/// Lifts document rows into resolved documents, in row order. The first
/// row whose id (then notebook id) does not parse fails the whole call with
/// `Parse` carrying the id error's message.
pub fn resolved_docs_from_rows(rows: &Vec<DocRow>, nbs: &Vec<NotebookName>) -> (r: Result<Vec<ResolvedDoc>, SiyuanError>)
    ensures
        r is Ok <==> first_unparsed(rows@) is None,
        r is Ok <==> forall|i: int| 0 <= i < rows@.len() ==> row_parses(#[trigger] rows@[i]),
        r matches Ok(docs) ==> docs@.len() == rows@.len() && forall|i: int| 0 <= i < rows@.len()
            ==> resolved_from(rows@[i], nbs@, #[trigger] docs@[i]),
        r matches Err(e) ==> (e matches SiyuanError::Parse(m) && first_unparsed(rows@) matches Some(i)
            && 0 <= i < rows@.len() && m@ == unparsed_message(rows@[i])),
{
    let mut out: Vec<ResolvedDoc> = Vec::new();
    let mut i: usize = 0;
    assert(rows@.take(0) =~= Seq::<DocRow>::empty());
    while i < rows.len()
        invariant
            i <= rows@.len(),
            out@.len() == i,
            first_unparsed(rows@.take(i as int)) is None,
            forall|k: int| 0 <= k < i ==> row_parses(#[trigger] rows@[k]),
            forall|k: int| 0 <= k < i ==> resolved_from(rows@[k], nbs@, #[trigger] out@[k]),
        decreases rows@.len() - i,
    {
        let row = &rows[i];
        proof {
            lemma_first_unparsed_prefix(rows@, i as int);
        }
        let id = match BlockId::parse(row.id.as_str()) {
            Ok(id) => id,
            Err(e) => {
                proof { lemma_first_unparsed_extends(rows@, i as int); }
                return Err(SiyuanError::Parse(e.to_string()));
            },
        };
        let notebook_id = match NotebookId::parse(row.box_.as_str()) {
            Ok(nb) => nb,
            Err(e) => {
                proof { lemma_first_unparsed_extends(rows@, i as int); }
                return Err(SiyuanError::Parse(e.to_string()));
            },
        };
        let notebook_name = notebook_name(nbs, &notebook_id);
        let title = title_from_hpath(row.hpath.as_str());
        out.push(ResolvedDoc {
            id,
            hpath: row.hpath.clone(),
            notebook_id,
            notebook_name,
            title,
            storage_path: row.path.clone(),
        });
        i = i + 1;
    }
    assert(rows@.take(rows@.len() as int) =~= rows@);
    Ok(out)
}

} // verus!
