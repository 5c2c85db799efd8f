//! Tag search: the statement that finds the blocks carrying a tag, and the
//! lifting of its rows into hits with a bounded markdown preview.

use vstd::prelude::*;

use crate::ids::{is_id_text, BlockId, IdError, id_error_message};
use crate::text::{chars_of, dec_digits, dec_u64, owned, push_char, push_str, string_of_range};

verus! {

/// Characters kept in a hit's markdown preview.
pub const TAG_PREVIEW_LEN: usize = 160;

/// The statement that lists every distinct tag, sorted.
pub open spec fn list_tags_query() -> Seq<char> {
    "SELECT DISTINCT content FROM spans WHERE type LIKE '%tag%' ORDER BY content"@
}

/// The statement that lists every distinct tag, sorted.
pub fn list_tags_sql() -> (r: &'static str)
    ensures
        r@ == list_tags_query(),
{
    "SELECT DISTINCT content FROM spans WHERE type LIKE '%tag%' ORDER BY content"
}

/// A block carrying the searched tag.
#[derive(Debug)]
pub struct TagBlockHit {
    pub block_id: BlockId,
    pub root_id: BlockId,
    pub markdown_preview: String,
}

/// A row of the tag-search statement.
#[derive(Debug)]
pub struct TagRow {
    pub block_id: String,
    pub root_id: String,
    pub markdown: String,
}

/// The ellipsis that marks a cut preview.
pub open spec fn ellipsis() -> char {
    '\u{2026}'
}

/// `s` when it has at most `max` characters, else its first `max`
/// characters followed by an ellipsis.
pub open spec fn preview(s: Seq<char>, max: nat) -> Seq<char> {
    if s.len() <= max {
        s
    } else {
        s.take(max as int).push(ellipsis())
    }
}

/// Cuts `s` to at most `max` characters, marking a cut with `…`. Counts
/// characters, not bytes, so multi-byte text is never split.
pub fn truncate(s: &str, max: usize) -> (r: String)
    ensures
        r@ == preview(s@, max as nat),
{
    let cs = chars_of(s);
    if cs.len() <= max {
        owned(s)
    } else {
        let mut out = string_of_range(cs.as_slice(), 0, max);
        push_char(&mut out, '\u{2026}');
        assert(cs@.subrange(0, max as int) =~= s@.take(max as int));
        out
    }
}

/// `s` with every `'` doubled, as a SQL string literal body needs.
pub open spec fn escape_quotes(s: Seq<char>) -> Seq<char>
    decreases s.len(),
{
    if s.len() == 0 {
        Seq::empty()
    } else {
        escape_quotes(s.drop_last()) + (if s.last() == '\'' { seq!['\'', '\''] } else { seq![s.last()] })
    }
}

/// Doubles every `'` of a tag.
pub fn escape_tag(tag: &str) -> (r: String)
    ensures
        r@ == escape_quotes(tag@),
{
    let cs = chars_of(tag);
    let mut out = String::new();
    let mut i: usize = 0;
    while i < cs.len()
        invariant
            cs@ == tag@,
            i <= cs@.len(),
            out@ == escape_quotes(cs@.take(i as int)),
        decreases cs@.len() - i,
    {
        let c = cs[i];
        if c == '\'' {
            push_char(&mut out, '\'');
            push_char(&mut out, '\'');
        } else {
            push_char(&mut out, c);
        }
        proof {
            let t = cs@.take(i + 1);
            assert(t.drop_last() =~= cs@.take(i as int));
            assert(t.last() == c);
            assert(out@ =~= escape_quotes(t));
        }
        i = i + 1;
    }
    assert(cs@.take(cs@.len() as int) =~= tag@);
    out
}

/// The tag-search statement for an already escaped tag.
pub open spec fn tag_search_query(escaped: Seq<char>, limit: nat) -> Seq<char> {
    "SELECT b.id AS block_id, b.root_id, b.markdown\n         FROM blocks b\n         JOIN spans s ON s.block_id = b.id\n         WHERE s.type LIKE '%tag%' AND s.content = '"@
        + escaped + "'\n         ORDER BY b.updated DESC\n         LIMIT "@ + dec_digits(limit)
}

/// Builds the tag-search statement: blocks joined with their tag spans
/// whose content is the tag, newest first, at most `limit` rows.
pub fn build_search_by_tag_sql(escaped_tag: &str, limit: usize) -> (r: String)
    ensures
        r@ == tag_search_query(escaped_tag@, limit as nat),
{
    let mut s = owned(
        "SELECT b.id AS block_id, b.root_id, b.markdown\n         FROM blocks b\n         JOIN spans s ON s.block_id = b.id\n         WHERE s.type LIKE '%tag%' AND s.content = '",
    );
    push_str(&mut s, escaped_tag);
    push_str(&mut s, "'\n         ORDER BY b.updated DESC\n         LIMIT ");
    let l = dec_u64(limit as u64);
    push_str(&mut s, l.as_str());
    s
}

/// Why a tag search failed.
#[derive(Debug)]
pub enum TagError {
    /// The requested limit was zero.
    ZeroLimit,
    /// A row's block id is malformed.
    BadBlockId(IdError),
    /// A row's root id is malformed.
    BadRootId(IdError),
}

/// Message of a [`TagError`], with the cause after the context.
pub open spec fn tag_error_message(e: TagError) -> Seq<char> {
    match e {
        TagError::ZeroLimit => "`limit` must be greater than 0"@,
        TagError::BadBlockId(c) => "parsing block id: "@ + id_error_message(c),
        TagError::BadRootId(c) => "parsing root id: "@ + id_error_message(c),
    }
}

impl TagError {
    /// Human-readable message.
    pub fn to_string(&self) -> (r: String)
        ensures
            r@ == tag_error_message(*self),
    {
        match self {
            TagError::ZeroLimit => owned("`limit` must be greater than 0"),
            TagError::BadBlockId(c) => {
                let mut s = owned("parsing block id: ");
                let m = c.to_string();
                push_str(&mut s, m.as_str());
                s
            },
            TagError::BadRootId(c) => {
                let mut s = owned("parsing root id: ");
                let m = c.to_string();
                push_str(&mut s, m.as_str());
                s
            },
        }
    }
}

/// The statement for a tag search: refused for a zero limit; otherwise the
/// search for the tag with its quotes doubled, capped at `limit` rows.
pub fn search_by_tag_sql(tag: &str, limit: usize) -> (r: Result<String, TagError>)
    ensures
        limit == 0 <==> r is Err,
        r matches Err(e) ==> e is ZeroLimit,
        r matches Ok(s) ==> s@ == tag_search_query(escape_quotes(tag@), limit as nat),
{
    if limit == 0 {
        return Err(TagError::ZeroLimit);
    }
    let escaped = escape_tag(tag);
    Ok(build_search_by_tag_sql(escaped.as_str(), limit))
}

/// `true` when both ids of a row parse.
pub open spec fn row_ok(r: TagRow) -> bool {
    is_id_text(r.block_id@) && is_id_text(r.root_id@)
}

/// Index of the first row whose ids do not both parse, if any.
pub open spec fn first_bad_row(rows: Seq<TagRow>) -> Option<int>
    decreases rows.len(),
{
    if rows.len() == 0 {
        None
    } else {
        match first_bad_row(rows.drop_last()) {
            Some(i) => Some(i),
            None => if row_ok(rows.last()) { None } else { Some(rows.len() - 1) },
        }
    }
}

/// The hit lifted from a row whose ids parse.
pub open spec fn hit_of(r: TagRow, h: TagBlockHit) -> bool {
    h.block_id@ == r.block_id@ && h.root_id@ == r.root_id@
        && h.markdown_preview@ == preview(r.markdown@, TAG_PREVIEW_LEN as nat)
}

/// The error for a row that does not parse: the block id is checked first.
pub open spec fn row_error(r: TagRow, e: TagError) -> bool {
    if !is_id_text(r.block_id@) {
        e matches TagError::BadBlockId(IdError::Invalid(t)) && t@ == r.block_id@
    } else {
        e matches TagError::BadRootId(IdError::Invalid(t)) && t@ == r.root_id@
    }
}

proof fn lemma_first_bad_prefix(rows: Seq<TagRow>, n: int)
    requires
        0 <= n < rows.len(),
        first_bad_row(rows.take(n)) is None,
    ensures
        first_bad_row(rows.take(n + 1)) == (if row_ok(rows[n]) { None::<int> } else { Some(n) }),
{
    assert(rows.take(n + 1).drop_last() =~= rows.take(n));
}

proof fn lemma_first_bad_extends(rows: Seq<TagRow>, n: int)
    requires
        0 <= n < rows.len(),
        first_bad_row(rows.take(n + 1)) == Some(n),
    ensures
        first_bad_row(rows) == Some(n),
    decreases rows.len(),
{
    if rows.len() > n + 1 {
        assert(rows.drop_last().take(n + 1) =~= rows.take(n + 1));
        lemma_first_bad_extends(rows.drop_last(), n);
    } else {
        assert(rows.take(n + 1) =~= rows);
    }
}

/// Lifts the rows of a tag search into hits, in row order, each with its
/// markdown cut to the preview length. The first row whose block id (then
/// root id) does not parse fails the whole lift.
pub fn tag_hits(rows: &Vec<TagRow>) -> (r: Result<Vec<TagBlockHit>, TagError>)
    ensures
        r is Ok <==> first_bad_row(rows@) is None,
        r matches Ok(hits) ==> hits@.len() == rows@.len()
            && forall|i: int| 0 <= i < rows@.len() ==> hit_of(#[trigger] rows@[i], hits@[i]),
        r matches Err(e) ==> (first_bad_row(rows@) matches Some(i) && 0 <= i < rows@.len()
            && row_error(rows@[i], e)),
{
    let mut hits: Vec<TagBlockHit> = Vec::new();
    let mut i: usize = 0;
    assert(rows@.take(0) =~= Seq::<TagRow>::empty());
    while i < rows.len()
        invariant
            i <= rows@.len(),
            first_bad_row(rows@.take(i as int)) is None,
            hits@.len() == i,
            forall|k: int| 0 <= k < i ==> hit_of(#[trigger] rows@[k], hits@[k]),
        decreases rows@.len() - i,
    {
        let r = &rows[i];
        proof {
            lemma_first_bad_prefix(rows@, i as int);
        }
        let block_id = match BlockId::parse(r.block_id.as_str()) {
            Ok(id) => id,
            Err(e) => {
                proof {
                    lemma_first_bad_extends(rows@, i as int);
                }
                return Err(TagError::BadBlockId(e));
            },
        };
        let root_id = match BlockId::parse(r.root_id.as_str()) {
            Ok(id) => id,
            Err(e) => {
                proof {
                    lemma_first_bad_extends(rows@, i as int);
                }
                return Err(TagError::BadRootId(e));
            },
        };
        let markdown_preview = truncate(r.markdown.as_str(), TAG_PREVIEW_LEN);
        let ghost before = hits@;
        hits.push(TagBlockHit { block_id, root_id, markdown_preview });
        proof {
            assert forall|k: int| 0 <= k < i + 1 implies hit_of(#[trigger] rows@[k], hits@[k]) by {
                if k < i {
                    assert(hits@[k] == before[k]);
                }
            }
        }
        i = i + 1;
    }
    assert(rows@.take(rows@.len() as int) =~= rows@);
    Ok(hits)
}


/// A preview keeps at most `max` characters of the text plus the ellipsis:
/// a text that fits comes back unchanged, a longer one is cut to its first
/// `max` characters and marked.
pub proof fn lemma_preview_bounded(s: Seq<char>, max: nat)
    ensures
        preview(s, max).len() <= max + 1,
        s.len() <= max ==> preview(s, max) == s,
        s.len() > max ==> preview(s, max).len() == max + 1 && preview(s, max).take(max as int) == s.take(max as int)
            && preview(s, max).last() == ellipsis(),
{
    if s.len() > max {
        assert(preview(s, max).take(max as int) =~= s.take(max as int));
    }
}

} // verus!
