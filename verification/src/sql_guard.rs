//! Read-only screening of raw SQL, decided on the parsed statement rather
//! than on its leading keyword: exactly one statement, and it must be a
//! query whose body only selects (set operations and nested queries of
//! selects included), or an `EXPLAIN` of such a query. A CTE-prefixed write
//! (`WITH x AS (...) DELETE ...`) is a query whose body is a write, so it
//! is refused.

use vstd::prelude::*;

use sqlparser::ast::{SetExpr, Statement};
use sqlparser::dialect::SQLiteDialect;
use sqlparser::parser::{Parser, ParserError};

use crate::text::{blank, chars_eq, chars_of, dec_digits, dec_u64, is_blank, owned, push_char, push_str, string_of_range};

verus! {

#[verifier::external_type_specification]
#[verifier::external_body]
pub struct ExStatement(Statement);

#[verifier::external_type_specification]
#[verifier::external_body]
pub struct ExSetExpr(SetExpr);

/// The shape of a query body, as far as screening needs it.
#[derive(Debug)]
pub enum BodyShape {
    Select,
    Values,
    Table,
    /// A parenthesised query, with its body.
    Query(Box<BodyShape>),
    /// `UNION` / `EXCEPT` / `INTERSECT` of two bodies.
    SetOperation(Box<BodyShape>, Box<BodyShape>),
    Insert,
    Update,
    Delete,
    Merge,
}

/// The shape of a statement, as far as screening needs it.
#[derive(Debug)]
pub enum StmtShape {
    Query(BodyShape),
    Explain(Box<StmtShape>),
    /// Any other statement, by the `Debug` rendering of the parsed value,
    /// which starts with its variant name.
    Other(String),
}

/// Model of a [`StmtShape`].
pub enum ShapeView {
    Query(BodyShape),
    Explain(Box<ShapeView>),
    Other(Seq<char>),
}

/// Model of a statement shape.
pub open spec fn shape_view(s: StmtShape) -> ShapeView
    decreases s,
{
    match s {
        StmtShape::Query(b) => ShapeView::Query(b),
        StmtShape::Explain(inner) => ShapeView::Explain(Box::new(shape_view(*inner))),
        StmtShape::Other(t) => ShapeView::Other(t@),
    }
}

/// Models of a list of statement shapes.
pub open spec fn shape_views(v: Seq<StmtShape>) -> Seq<ShapeView> {
    v.map_values(|s: StmtShape| shape_view(s))
}

/// What the SQLite dialect of `sqlparser` makes of a text: the shapes of
/// the statements, or the parser's message.
pub uninterp spec fn sqlite_shapes(sql: Seq<char>) -> Result<Seq<ShapeView>, Seq<char>>;

/// Model of a parse result.
pub open spec fn parsed_view(r: Result<Vec<StmtShape>, String>) -> Result<Seq<ShapeView>, Seq<char>> {
    match r {
        Ok(v) => Ok(shape_views(v@)),
        Err(m) => Err(m@),
    }
}

#[verifier::external_body]
fn body_shape(b: &SetExpr) -> BodyShape {
    match b {
        SetExpr::Select(_) => BodyShape::Select,
        SetExpr::Values(_) => BodyShape::Values,
        SetExpr::Table(_) => BodyShape::Table,
        SetExpr::Query(q) => BodyShape::Query(Box::new(body_shape(&q.body))),
        SetExpr::SetOperation { left, right, .. } => BodyShape::SetOperation(Box::new(body_shape(left)), Box::new(body_shape(right))),
        SetExpr::Insert(_) => BodyShape::Insert,
        SetExpr::Update(_) => BodyShape::Update,
        SetExpr::Delete(_) => BodyShape::Delete,
        SetExpr::Merge(_) => BodyShape::Merge,
    }
}

#[verifier::external_body]
fn statement_shape(st: &Statement) -> StmtShape {
    match st {
        Statement::Query(q) => StmtShape::Query(body_shape(&q.body)),
        Statement::Explain { statement, .. } => StmtShape::Explain(Box::new(statement_shape(statement))),
        other => StmtShape::Other(format!("{other:?}")),
    }
}

/// Parses a text as SQLite SQL into statement shapes.
///
/// Trusted: wraps `sqlparser::parser::Parser::parse_sql` with the SQLite
/// dialect. The contract only names the result (`sqlite_shapes` of the
/// text): what the parser accepts is not restated. The conversion keeps
/// each statement's variant, an `EXPLAIN`'s inner statement and a query's
/// body structure; a parse error becomes its message (the bare text of a
/// tokenizer or parser error, the displayed error otherwise).
#[verifier::external_body]
fn parse_shapes(sql: &str) -> (r: Result<Vec<StmtShape>, String>)
    ensures
        parsed_view(r) == sqlite_shapes(sql@),
{
    match Parser::parse_sql(&SQLiteDialect {}, sql) {
        Ok(stmts) => Ok(stmts.iter().map(statement_shape).collect()),
        Err(ParserError::TokenizerError(s)) | Err(ParserError::ParserError(s)) => Err(s),
        Err(other) => Err(other.to_string()),
    }
}

/// Why a statement was refused.
#[derive(Debug)]
pub enum GuardError {
    /// Empty, white space only, or comments only.
    Empty,
    /// More than one statement.
    MultiStatement { count: usize },
    /// Not a read-only query; `kind` names what it is.
    NonReadOnly { kind: String },
    /// Not SQLite SQL; the parser's message.
    Parse(String),
}

/// Model of a [`GuardError`].
pub enum GuardView {
    Empty,
    MultiStatement { count: nat },
    NonReadOnly { kind: Seq<char> },
    Parse(Seq<char>),
}

/// Model of a guard error.
pub open spec fn guard_view(e: GuardError) -> GuardView {
    match e {
        GuardError::Empty => GuardView::Empty,
        GuardError::MultiStatement { count } => GuardView::MultiStatement { count: count as nat },
        GuardError::NonReadOnly { kind } => GuardView::NonReadOnly { kind: kind@ },
        GuardError::Parse(m) => GuardView::Parse(m@),
    }
}

/// Message of a guard error.
pub open spec fn guard_message(e: GuardView) -> Seq<char> {
    match e {
        GuardView::Empty => "statement must not be empty or whitespace-only"@,
        GuardView::MultiStatement { count } => "only a single statement is allowed; parsed "@ + dec_digits(count),
        GuardView::NonReadOnly { kind } => "only read-only queries are allowed; got "@ + kind,
        GuardView::Parse(m) => "could not parse as SQLite SQL: "@ + m,
    }
}

impl GuardError {
    /// Human-readable message.
    pub fn to_string(&self) -> (r: String)
        ensures
            r@ == guard_message(guard_view(*self)),
    {
        match self {
            GuardError::Empty => owned("statement must not be empty or whitespace-only"),
            GuardError::MultiStatement { count } => {
                let mut s = owned("only a single statement is allowed; parsed ");
                let n = dec_u64(*count as u64);
                push_str(&mut s, n.as_str());
                s
            },
            GuardError::NonReadOnly { kind } => {
                let mut s = owned("only read-only queries are allowed; got ");
                push_str(&mut s, kind.as_str());
                s
            },
            GuardError::Parse(m) => {
                let mut s = owned("could not parse as SQLite SQL: ");
                push_str(&mut s, m.as_str());
                s
            },
        }
    }
}

/// `None` when a query body only reads; otherwise the label of the first
/// write found, left side of a set operation first.
pub open spec fn body_write(b: BodyShape) -> Option<Seq<char>>
    decreases b,
{
    match b {
        BodyShape::Select | BodyShape::Values | BodyShape::Table => None,
        BodyShape::Query(inner) => body_write(*inner),
        BodyShape::SetOperation(l, r) => match body_write(*l) {
            Some(k) => Some(k),
            None => body_write(*r),
        },
        BodyShape::Insert => Some("INSERT"@),
        BodyShape::Update => Some("UPDATE"@),
        BodyShape::Delete => Some("DELETE"@),
        BodyShape::Merge => Some("MERGE"@),
    }
}

/// `true` for ASCII letters, digits and `_`.
pub open spec fn is_word_char(c: char) -> bool {
    ('a' <= c && c <= 'z') || ('A' <= c && c <= 'Z') || ('0' <= c && c <= '9') || c == '_'
}

/// The leading run of word characters.
pub open spec fn word_prefix(s: Seq<char>) -> Seq<char>
    decreases s.len(),
{
    if s.len() == 0 || !is_word_char(s[0]) {
        Seq::empty()
    } else {
        seq![s[0]] + word_prefix(s.drop_first())
    }
}

/// ASCII upper case of one character.
pub open spec fn upper(c: char) -> char {
    if 'a' <= c && c <= 'z' { ((c as u32) - 32) as char } else { c }
}

/// ASCII upper case of a text.
pub open spec fn upper_text(s: Seq<char>) -> Seq<char> {
    s.map_values(|c: char| upper(c))
}

/// The label of a statement that is not a query, from the variant name its
/// `Debug` rendering starts with: multi-word writes get their SQL wording,
/// any other variant its name in upper case.
pub open spec fn label_of_debug(d: Seq<char>) -> Seq<char> {
    let head = word_prefix(d);
    if head == "CreateTable"@ {
        "CREATE TABLE"@
    } else if head == "CreateIndex"@ {
        "CREATE INDEX"@
    } else if head == "CreateView"@ {
        "CREATE VIEW"@
    } else if head == "AlterTable"@ {
        "ALTER TABLE"@
    } else if head == "AttachDatabase"@ {
        "ATTACH"@
    } else {
        upper_text(head)
    }
}

/// The label of a statement in refusal messages.
pub open spec fn kind_label(s: ShapeView) -> Seq<char>
    decreases s,
{
    match s {
        ShapeView::Query(_) => "QUERY"@,
        ShapeView::Explain(inner) => "EXPLAIN "@ + kind_label(*inner),
        ShapeView::Other(d) => label_of_debug(d),
    }
}

/// The verdict on one statement: a query must only read; an `EXPLAIN` must
/// wrap a query that only reads; anything else is refused by its label.
pub open spec fn statement_verdict(s: ShapeView) -> Option<Seq<char>> {
    match s {
        ShapeView::Query(b) => body_write(b),
        ShapeView::Explain(inner) => match *inner {
            ShapeView::Query(b) => match body_write(b) {
                Some(k) => Some("EXPLAIN "@ + k),
                None => None,
            },
            other => Some("EXPLAIN "@ + kind_label(other)),
        },
        ShapeView::Other(d) => Some(label_of_debug(d)),
    }
}

/// The verdict on the parsed statements: none is empty, more than one is
/// refused, one is judged by [`statement_verdict`].
pub open spec fn shapes_verdict(v: Seq<ShapeView>) -> Result<(), GuardView> {
    if v.len() == 0 {
        Err(GuardView::Empty)
    } else if v.len() > 1 {
        Err(GuardView::MultiStatement { count: v.len() })
    } else {
        match statement_verdict(v[0]) {
            None => Ok(()),
            Some(k) => Err(GuardView::NonReadOnly { kind: k }),
        }
    }
}

/// The verdict on a text: blank text is empty, a parse failure carries the
/// parser's message, otherwise the parsed statements decide.
pub open spec fn read_only_verdict(sql: Seq<char>) -> Result<(), GuardView> {
    if blank(sql) {
        Err(GuardView::Empty)
    } else {
        match sqlite_shapes(sql) {
            Err(m) => Err(GuardView::Parse(m)),
            Ok(v) => shapes_verdict(v),
        }
    }
}

/// Model of a guard result.
pub open spec fn verdict_view(r: Result<(), GuardError>) -> Result<(), GuardView> {
    match r {
        Ok(()) => Ok(()),
        Err(e) => Err(guard_view(e)),
    }
}

fn body_check(b: &BodyShape) -> (r: Option<String>)
    ensures
        match r {
            Some(k) => body_write(*b) == Some(k@),
            None => body_write(*b) is None,
        },
    decreases b,
{
    match b {
        BodyShape::Select | BodyShape::Values | BodyShape::Table => None,
        BodyShape::Query(inner) => body_check(inner),
        BodyShape::SetOperation(l, r) => match body_check(l) {
            Some(k) => Some(k),
            None => body_check(r),
        },
        BodyShape::Insert => Some(owned("INSERT")),
        BodyShape::Update => Some(owned("UPDATE")),
        BodyShape::Delete => Some(owned("DELETE")),
        BodyShape::Merge => Some(owned("MERGE")),
    }
}

fn word_char(c: char) -> (r: bool)
    ensures
        r == is_word_char(c),
{
    ('a' <= c && c <= 'z') || ('A' <= c && c <= 'Z') || ('0' <= c && c <= '9') || c == '_'
}

proof fn lemma_word_prefix(s: Seq<char>, i: int)
    requires
        0 <= i <= s.len(),
        forall|k: int| 0 <= k < i ==> is_word_char(#[trigger] s[k]),
        i == s.len() || !is_word_char(s[i]),
    ensures
        word_prefix(s) == s.take(i),
    decreases i,
{
    if i == 0 {
        assert(s.take(0) =~= Seq::<char>::empty());
    } else {
        let t = s.drop_first();
        assert forall|k: int| 0 <= k < i - 1 implies is_word_char(#[trigger] t[k]) by {
            assert(t[k] == s[k + 1]);
        }
        if i - 1 < t.len() {
            assert(t[i - 1] == s[i]);
        }
        lemma_word_prefix(t, i - 1);
        assert(seq![s[0]] + t.take(i - 1) =~= s.take(i));
    }
}

fn debug_label(d: &str) -> (r: String)
    ensures
        r@ == label_of_debug(d@),
{
    let cs = chars_of(d);
    let mut i: usize = 0;
    while i < cs.len() && word_char(cs[i])
        invariant
            cs@ == d@,
            i <= cs@.len(),
            forall|k: int| 0 <= k < i ==> is_word_char(#[trigger] cs@[k]),
        decreases cs@.len() - i,
    {
        i = i + 1;
    }
    proof {
        lemma_word_prefix(d@, i as int);
    }
    let head = string_of_range(cs.as_slice(), 0, i);
    assert(head@ =~= d@.take(i as int));
    let hc = chars_of(head.as_str());
    if chars_eq(hc.as_slice(), chars_of("CreateTable").as_slice()) {
        return owned("CREATE TABLE");
    }
    if chars_eq(hc.as_slice(), chars_of("CreateIndex").as_slice()) {
        return owned("CREATE INDEX");
    }
    if chars_eq(hc.as_slice(), chars_of("CreateView").as_slice()) {
        return owned("CREATE VIEW");
    }
    if chars_eq(hc.as_slice(), chars_of("AlterTable").as_slice()) {
        return owned("ALTER TABLE");
    }
    if chars_eq(hc.as_slice(), chars_of("AttachDatabase").as_slice()) {
        return owned("ATTACH");
    }
    let mut out = String::new();
    let mut j: usize = 0;
    while j < hc.len()
        invariant
            hc@ == head@,
            j <= hc@.len(),
            out@ == upper_text(hc@.take(j as int)),
        decreases hc@.len() - j,
    {
        let c = hc[j];
        let u = if 'a' <= c && c <= 'z' { ((c as u32) - 32) as u8 as char } else { c };
        assert(u == upper(c)) by {
            if 'a' <= c && c <= 'z' {
                assert((((c as u32) - 32) as u8) as char == ((c as u32) - 32) as char);
            }
        }
        push_char(&mut out, u);
        assert(upper_text(hc@.take(j + 1)) =~= upper_text(hc@.take(j as int)).push(upper(c)));
        j = j + 1;
    }
    assert(hc@.take(hc@.len() as int) =~= hc@);
    out
}

fn label(s: &StmtShape) -> (r: String)
    ensures
        r@ == kind_label(shape_view(*s)),
    decreases s,
{
    match s {
        StmtShape::Query(_) => owned("QUERY"),
        StmtShape::Explain(inner) => {
            let mut out = owned("EXPLAIN ");
            let k = label(inner);
            push_str(&mut out, k.as_str());
            out
        },
        StmtShape::Other(d) => debug_label(d.as_str()),
    }
}

fn statement_check(s: &StmtShape) -> (r: Option<String>)
    ensures
        match r {
            Some(k) => statement_verdict(shape_view(*s)) == Some(k@),
            None => statement_verdict(shape_view(*s)) is None,
        },
{
    match s {
        StmtShape::Query(b) => body_check(b),
        StmtShape::Explain(inner) => match &**inner {
            StmtShape::Query(b) => match body_check(b) {
                Some(k) => {
                    let mut out = owned("EXPLAIN ");
                    push_str(&mut out, k.as_str());
                    Some(out)
                },
                None => None,
            },
            other => {
                assert(!(shape_view(*other) is Query));
                let mut out = owned("EXPLAIN ");
                let k = label(other);
                push_str(&mut out, k.as_str());
                Some(out)
            },
        },
        StmtShape::Other(d) => Some(debug_label(d.as_str())),
    }
}

/// Judges parsed statements; see [`shapes_verdict`].
pub fn judge_statements(shapes: &Vec<StmtShape>) -> (r: Result<(), GuardError>)
    ensures
        verdict_view(r) == shapes_verdict(shape_views(shapes@)),
{
    let n = shapes.len();
    if n == 0 {
        return Err(GuardError::Empty);
    }
    if n > 1 {
        return Err(GuardError::MultiStatement { count: n });
    }
    assert(shape_views(shapes@)[0] == shape_view(shapes@[0]));
    match statement_check(&shapes[0]) {
        None => Ok(()),
        Some(kind) => Err(GuardError::NonReadOnly { kind }),
    }
}

/// Accepts a text only if it is a single read-only statement; see
/// [`read_only_verdict`].
pub fn validate_read_only(stmt: &str) -> (r: Result<(), GuardError>)
    ensures
        verdict_view(r) == read_only_verdict(stmt@),
{
    if is_blank(stmt) {
        return Err(GuardError::Empty);
    }
    match parse_shapes(stmt) {
        Err(m) => Err(GuardError::Parse(m)),
        Ok(shapes) => judge_statements(&shapes),
    }
}


/// `true` when a write appears anywhere in a query body.
pub open spec fn writes_anywhere(b: BodyShape) -> bool
    decreases b,
{
    match b {
        BodyShape::Select | BodyShape::Values | BodyShape::Table => false,
        BodyShape::Query(inner) => writes_anywhere(*inner),
        BodyShape::SetOperation(l, r) => writes_anywhere(*l) || writes_anywhere(*r),
        _ => true,
    }
}

proof fn lemma_body_write(b: BodyShape)
    ensures
        body_write(b) is None <==> !writes_anywhere(b),
    decreases b,
{
    match b {
        BodyShape::Query(inner) => lemma_body_write(*inner),
        BodyShape::SetOperation(l, r) => {
            lemma_body_write(*l);
            lemma_body_write(*r);
        },
        _ => {},
    }
}

/// A text passes the guard only when it parses to exactly one statement
/// that is a query, or an `EXPLAIN` of a query, with no write anywhere in
/// its body, however deeply nested in sub-queries and set operations.
pub proof fn lemma_accepted_only_reads(sql: Seq<char>)
    requires
        read_only_verdict(sql) is Ok,
    ensures
        !blank(sql),
        sqlite_shapes(sql) matches Ok(v) && v.len() == 1 && (match v[0] {
            ShapeView::Query(b) => !writes_anywhere(b),
            ShapeView::Explain(inner) => (match *inner {
                ShapeView::Query(b) => !writes_anywhere(b),
                _ => false,
            }),
            ShapeView::Other(_) => false,
        }),
{
    if let Ok(v) = sqlite_shapes(sql) {
        match v[0] {
            ShapeView::Query(b) => lemma_body_write(b),
            ShapeView::Explain(inner) => {
                if let ShapeView::Query(b) = *inner {
                    lemma_body_write(b);
                }
            },
            _ => {},
        }
    }
}

} // verus!
