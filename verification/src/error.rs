//! Categorised harness errors.

use vstd::prelude::*;

use crate::ids::BlockId;
use crate::text::{debug_str, debug_str_text, dec_digits, dec_int, dec_i64, dec_u64, owned, push_str};

verus! {

/// Categorised harness error. `kind()` gives a stable enum-shaped value for
/// programmatic handling; `to_string()` gives the human message.
#[derive(Debug)]
pub enum SiyuanError {
    Http(String),
    Auth,
    Api { code: i32, msg: String },
    NotFound(String),
    AmbiguousPath { hpath: String, candidates: Vec<BlockId> },
    UnsupportedOp { id: BlockId, block_type: String, op: String },
    SqlUnavailable,
    GraphLimit { limit: usize },
    Parse(String),
    VerifyFailed(String),
}

/// The variant of a [`SiyuanError`], without payload.
#[derive(Debug, Clone, Copy, PartialEq, Eq, Structural)]
pub enum ErrorKind {
    Http,
    Auth,
    Api,
    NotFound,
    AmbiguousPath,
    UnsupportedOp,
    SqlUnavailable,
    GraphLimit,
    Parse,
    VerifyFailed,
}

/// The kind of each error variant.
pub open spec fn kind_of_error(e: SiyuanError) -> ErrorKind {
    match e {
        SiyuanError::Http(_) => ErrorKind::Http,
        SiyuanError::Auth => ErrorKind::Auth,
        SiyuanError::Api { .. } => ErrorKind::Api,
        SiyuanError::NotFound(_) => ErrorKind::NotFound,
        SiyuanError::AmbiguousPath { .. } => ErrorKind::AmbiguousPath,
        SiyuanError::UnsupportedOp { .. } => ErrorKind::UnsupportedOp,
        SiyuanError::SqlUnavailable => ErrorKind::SqlUnavailable,
        SiyuanError::GraphLimit { .. } => ErrorKind::GraphLimit,
        SiyuanError::Parse(_) => ErrorKind::Parse,
        SiyuanError::VerifyFailed(_) => ErrorKind::VerifyFailed,
    }
}

/// `Debug` rendering of a list of ids: `[BlockId("..."), BlockId("...")]`.
pub open spec fn debug_id_list(ids: Seq<Seq<char>>) -> Seq<char> {
    seq!['['] + debug_id_items(ids) + seq![']']
}

/// The comma-separated items of [`debug_id_list`].
pub open spec fn debug_id_items(ids: Seq<Seq<char>>) -> Seq<char>
    decreases ids.len(),
{
    if ids.len() == 0 {
        Seq::empty()
    } else if ids.len() == 1 {
        debug_id(ids[0])
    } else {
        debug_id_items(ids.drop_last()) + ", "@ + debug_id(ids.last())
    }
}

/// `Debug` rendering of one id: `BlockId("...")`.
pub open spec fn debug_id(id: Seq<char>) -> Seq<char> {
    "BlockId("@ + debug_str_text(id) + ")"@
}

/// The human-readable message of each error.
pub open spec fn error_message(e: SiyuanError) -> Seq<char> {
    match e {
        SiyuanError::Http(s) => "HTTP transport error: "@ + s@,
        SiyuanError::Auth => "authentication missing or invalid"@,
        SiyuanError::Api { code, msg } => "SiYuan API returned code "@ + dec_int(code as int) + ": "@ + msg@,
        SiyuanError::NotFound(s) => "block not found: "@ + s@,
        SiyuanError::AmbiguousPath { hpath, candidates } => "path is ambiguous: "@ + debug_str_text(hpath@)
            + " resolves to multiple ids: "@ + debug_id_list(crate::block::id_texts(candidates@)),
        SiyuanError::UnsupportedOp { id, block_type, op } => "operation "@ + debug_str_text(op@)
            + " is not supported on block "@ + id@ + " of type "@ + block_type@,
        SiyuanError::SqlUnavailable => "SQL query unavailable (publish mode disables /api/query/sql)"@,
        SiyuanError::GraphLimit { limit } => "graph result exceeded limit ("@ + dec_digits(limit as nat)
            + "); refine query"@,
        SiyuanError::Parse(s) => "parse error: "@ + s@,
        SiyuanError::VerifyFailed(s) => "verification after write failed: "@ + s@,
    }
}

pub(crate) fn debug_id_list_exec(ids: &Vec<BlockId>) -> (r: String)
    ensures
        r@ == debug_id_list(crate::block::id_texts(ids@)),
{
    let mut out = owned("[");
    let mut i: usize = 0;
    proof { reveal_strlit("["); }
    while i < ids.len()
        invariant
            i <= ids@.len(),
            out@ == seq!['['] + debug_id_items(crate::block::id_texts(ids@.subrange(0, i as int))),
        decreases ids@.len() - i,
    {
        let ghost prev = crate::block::id_texts(ids@.subrange(0, i as int));
        if i > 0 {
            push_str(&mut out, ", ");
        }
        push_str(&mut out, "BlockId(");
        let q = debug_str(ids[i].as_str());
        push_str(&mut out, q.as_str());
        push_str(&mut out, ")");
        proof {
            let next = crate::block::id_texts(ids@.subrange(0, i + 1));
            assert(next.drop_last() =~= prev);
            assert(next.last() == ids@[i as int]@);
            assert(next.len() == i + 1);
            if i == 0 {
                assert(prev.len() == 0);
            }
        }
        i = i + 1;
    }
    push_str(&mut out, "]");
    proof { reveal_strlit("]"); }
    assert(ids@.subrange(0, ids@.len() as int) =~= ids@);
    out
}

impl SiyuanError {
    /// The variant of this error.
    pub fn kind(&self) -> (r: ErrorKind)
        ensures
            r == kind_of_error(*self),
    {
        match self {
            SiyuanError::Http(_) => ErrorKind::Http,
            SiyuanError::Auth => ErrorKind::Auth,
            SiyuanError::Api { .. } => ErrorKind::Api,
            SiyuanError::NotFound(_) => ErrorKind::NotFound,
            SiyuanError::AmbiguousPath { .. } => ErrorKind::AmbiguousPath,
            SiyuanError::UnsupportedOp { .. } => ErrorKind::UnsupportedOp,
            SiyuanError::SqlUnavailable => ErrorKind::SqlUnavailable,
            SiyuanError::GraphLimit { .. } => ErrorKind::GraphLimit,
            SiyuanError::Parse(_) => ErrorKind::Parse,
            SiyuanError::VerifyFailed(_) => ErrorKind::VerifyFailed,
        }
    }

    /// The human-readable message.
    pub fn to_string(&self) -> (r: String)
        ensures
            r@ == error_message(*self),
    {
        match self {
            SiyuanError::Http(s) => {
                let mut m = owned("HTTP transport error: ");
                push_str(&mut m, s.as_str());
                m
            },
            SiyuanError::Auth => owned("authentication missing or invalid"),
            SiyuanError::Api { code, msg } => {
                let mut m = owned("SiYuan API returned code ");
                let c = dec_i64(*code as i64);
                push_str(&mut m, c.as_str());
                push_str(&mut m, ": ");
                push_str(&mut m, msg.as_str());
                m
            },
            SiyuanError::NotFound(s) => {
                let mut m = owned("block not found: ");
                push_str(&mut m, s.as_str());
                m
            },
            SiyuanError::AmbiguousPath { hpath, candidates } => {
                let mut m = owned("path is ambiguous: ");
                let q = debug_str(hpath.as_str());
                push_str(&mut m, q.as_str());
                push_str(&mut m, " resolves to multiple ids: ");
                let l = debug_id_list_exec(candidates);
                push_str(&mut m, l.as_str());
                m
            },
            SiyuanError::UnsupportedOp { id, block_type, op } => {
                let mut m = owned("operation ");
                let q = debug_str(op.as_str());
                push_str(&mut m, q.as_str());
                push_str(&mut m, " is not supported on block ");
                push_str(&mut m, id.as_str());
                push_str(&mut m, " of type ");
                push_str(&mut m, block_type.as_str());
                m
            },
            SiyuanError::SqlUnavailable => owned("SQL query unavailable (publish mode disables /api/query/sql)"),
            SiyuanError::GraphLimit { limit } => {
                let mut m = owned("graph result exceeded limit (");
                let d = dec_u64(*limit as u64);
                push_str(&mut m, d.as_str());
                push_str(&mut m, "); refine query");
                m
            },
            SiyuanError::Parse(s) => {
                let mut m = owned("parse error: ");
                push_str(&mut m, s.as_str());
                m
            },
            SiyuanError::VerifyFailed(s) => {
                let mut m = owned("verification after write failed: ");
                push_str(&mut m, s.as_str());
                m
            },
        }
    }
}

} // verus!
