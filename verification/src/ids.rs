//! Block and notebook identifiers.
//!
//! A SiYuan id is a 14-digit timestamp, a dash and a 7-character suffix of
//! lower-case ASCII letters and digits, e.g. `20260501093000-abc1234`. Text
//! that is all ASCII is checked with the `regex` crate against the pattern
//! `^\d{14}-[0-9a-z]{7}$`; since `\d` also takes non-ASCII decimal digits,
//! text holding any non-ASCII character is refused before the regex runs.

use vstd::prelude::*;

use crate::text::all_ascii;

verus! {

#[verifier::external_type_specification]
#[verifier::external_body]
pub struct ExRegex(regex::Regex);

/// The id pattern as source text.
pub open spec fn id_pattern() -> Seq<char> {
    seq!['^', '\\', 'd', '{', '1', '4', '}', '-', '[', '0', '-', '9', 'a', '-', 'z', ']', '{', '7', '}', '$']
}

/// `true` for `'0'..='9'`.
pub open spec fn is_ascii_digit(c: char) -> bool {
    '0' <= c && c <= '9'
}

/// `true` for `'0'..='9'` and `'a'..='z'`.
pub open spec fn is_lower_alnum(c: char) -> bool {
    is_ascii_digit(c) || ('a' <= c && c <= 'z')
}

/// The id shape over ASCII text: 14 digits, `-`, 7 lower-case alphanumerics.
pub open spec fn ascii_id_shape(s: Seq<char>) -> bool {
    &&& s.len() == 22
    &&& forall|i: int| 0 <= i < 14 ==> is_ascii_digit(#[trigger] s[i])
    &&& s[14] == '-'
    &&& forall|i: int| 15 <= i < 22 ==> is_lower_alnum(#[trigger] s[i])
}

/// What `regex::Regex::is_match` answers for the regex compiled from
/// `pattern` on `haystack`.
pub uninterp spec fn regex_match(pattern: Seq<char>, haystack: Seq<char>) -> bool;

/// A compiled regular expression together with its source pattern.
pub struct CompiledPattern {
    pattern: String,
    re: regex::Regex,
}

impl CompiledPattern {
    /// The source text the regex was compiled from.
    pub closed spec fn source(&self) -> Seq<char> {
        self.pattern@
    }
}

/// Compiles `pattern` with `regex::Regex::new`.
///
/// Trusted: `None` exactly when `Regex::new` reports an error. The id pattern
/// is valid regex syntax far below the default size limits, so its
/// compilation is stated to succeed.
#[verifier::external_body]
fn compile_pattern(pattern: &str) -> (r: Option<CompiledPattern>)
    ensures
        r matches Some(p) ==> p.source() == pattern@,
        pattern@ == id_pattern() ==> r is Some,
{
    match regex::Regex::new(pattern) {
        Ok(re) => Some(CompiledPattern { pattern: pattern.to_string(), re }),
        Err(_) => None,
    }
}

/// Runs `regex::Regex::is_match` on `haystack`.
///
/// Trusted: the answer is `regex_match(source, haystack)`. For the id
/// pattern the regex documentation gives these facts: `^`/`$` anchor the
/// whole haystack, `\d` matches one Unicode decimal digit (among ASCII
/// characters exactly `0`..`9`), the class `[0-9a-z]` and the counted
/// repetitions match one character each. Hence a match has 22 characters
/// with `-` at index 14 and a lower-case alphanumeric suffix, and on ASCII
/// text the match is exactly `ascii_id_shape`. What `\d` accepts beyond
/// ASCII (other Unicode digits) is left to `regex_match`.
#[verifier::external_body]
fn pattern_matches(p: &CompiledPattern, haystack: &str) -> (r: bool)
    ensures
        r == regex_match(p.source(), haystack@),
        p.source() == id_pattern() && all_ascii(haystack@) ==> (r == ascii_id_shape(haystack@)),
        p.source() == id_pattern() && r ==> {
            &&& haystack@.len() == 22
            &&& haystack@[14] == '-'
            &&& forall|i: int| 15 <= i < 22 ==> is_lower_alnum(#[trigger] haystack@[i])
            &&& forall|i: int| 0 <= i < 14 && (haystack@[i] as u32) < 128 ==> is_ascii_digit(#[trigger] haystack@[i])
        },
{
    p.re.is_match(haystack)
}

/// `true` when `s` has the id shape: 14 ASCII digits, `-`, 7 lower-case
/// ASCII alphanumerics.
pub open spec fn is_id_text(s: Seq<char>) -> bool {
    ascii_id_shape(s)
}

fn is_all_ascii(s: &str) -> (r: bool)
    ensures
        r == all_ascii(s@),
{
    let cs = crate::text::chars_of(s);
    let mut i: usize = 0;
    while i < cs.len()
        invariant
            cs@ == s@,
            i <= cs@.len(),
            forall|j: int| 0 <= j < i ==> (cs@[j] as u32) < 128,
        decreases cs@.len() - i,
    {
        if (cs[i] as u32) >= 128 {
            return false;
        }
        i = i + 1;
    }
    true
}

/// Checks `s` against the id pattern; non-ASCII text is refused first.
fn matches_id_shape(s: &str) -> (r: bool)
    ensures
        r == is_id_text(s@),
{
    if !is_all_ascii(s) {
        proof {
            if ascii_id_shape(s@) {
                assert forall|i: int| 0 <= i < s@.len() implies (s@[i] as u32) < 128 by {
                    if i < 14 {
                        assert(is_ascii_digit(s@[i]));
                    } else if i > 14 {
                        assert(is_lower_alnum(s@[i]));
                    }
                }
            }
        }
        return false;
    }
    let pat = "^\\d{14}-[0-9a-z]{7}$";
    proof {
        reveal_strlit("^\\d{14}-[0-9a-z]{7}$");
        assert(pat@ =~= id_pattern());
    }
    match compile_pattern(pat) {
        Some(p) => pattern_matches(&p, s),
        None => false,
    }
}

/// Rejection of a string that does not have the id shape.
#[derive(Debug, PartialEq, Eq)]
pub enum IdError {
    Invalid(String),
}

impl IdError {
    /// Human-readable message, quoting the rejected input.
    pub fn to_string(&self) -> (r: String)
        ensures
            r@ == id_error_message(*self),
    {
        match self {
            IdError::Invalid(s) => {
                let mut out = crate::text::owned("invalid SiYuan block id: ");
                let q = crate::text::debug_str(s.as_str());
                crate::text::push_str(&mut out, q.as_str());
                crate::text::push_str(&mut out, " (expected 14-digit timestamp + '-' + 7 lowercase alnum)");
                out
            },
        }
    }
}

/// Message of an [`IdError`].
pub open spec fn id_error_message(e: IdError) -> Seq<char> {
    match e {
        IdError::Invalid(s) => "invalid SiYuan block id: "@ + crate::text::debug_str_text(s@)
            + " (expected 14-digit timestamp + '-' + 7 lowercase alnum)"@,
    }
}

/// A SiYuan block identifier.
#[derive(Debug)]
pub struct BlockId(String);

impl View for BlockId {
    type V = Seq<char>;

    open spec fn view(&self) -> Seq<char> {
        self.text()
    }
}

impl BlockId {
    /// The id text.
    pub closed spec fn text(&self) -> Seq<char> {
        self.0@
    }

    /// Every `BlockId` holds text of the id shape.
    pub closed spec fn wf(&self) -> bool {
        is_id_text(self.0@)
    }

    /// Parses an id; `Err(Invalid(s))` unless `s` has the id shape.
    pub fn parse(s: &str) -> (r: Result<BlockId, IdError>)
        ensures
            r is Ok <==> is_id_text(s@),
            all_ascii(s@) ==> (r is Ok <==> ascii_id_shape(s@)),
            r matches Ok(id) ==> id@ == s@ && id.wf(),
            r matches Err(IdError::Invalid(t)) ==> t@ == s@,
    {
        if matches_id_shape(s) {
            Ok(BlockId(crate::text::owned(s)))
        } else {
            Err(IdError::Invalid(crate::text::owned(s)))
        }
    }

    /// The id text.
    pub fn as_str(&self) -> (r: &str)
        ensures
            r@ == self@,
    {
        self.0.as_str()
    }

    /// The id text as an owned string.
    pub fn to_string(&self) -> (r: String)
        ensures
            r@ == self@,
    {
        self.0.clone()
    }

    /// A copy of this id.
    pub fn duplicate(&self) -> (r: BlockId)
        ensures
            r@ == self@,
            self.wf() ==> r.wf(),
    {
        BlockId(self.0.clone())
    }

    /// `true` when both ids have the same text.
    pub fn same(&self, other: &BlockId) -> (r: bool)
        ensures
            r == (self@ == other@),
    {
        self.0 == other.0
    }
}

impl Clone for BlockId {
    fn clone(&self) -> (r: Self)
        ensures
            r@ == self@,
    {
        BlockId(self.0.clone())
    }
}

impl PartialEq for BlockId {
    fn eq(&self, other: &Self) -> (r: bool) {
        self.0 == other.0
    }
}

impl vstd::std_specs::cmp::PartialEqSpecImpl for BlockId {
    open spec fn obeys_eq_spec() -> bool {
        true
    }

    open spec fn eq_spec(&self, other: &BlockId) -> bool {
        self@ == other@
    }
}

impl Eq for BlockId {}

impl std::str::FromStr for BlockId {
    type Err = IdError;

    fn from_str(s: &str) -> (r: Result<Self, Self::Err>)
        ensures
            r is Ok <==> is_id_text(s@),
            r matches Ok(id) ==> id@ == s@ && id.wf(),
            r matches Err(IdError::Invalid(t)) ==> t@ == s@,
    {
        Self::parse(s)
    }
}

/// A SiYuan notebook identifier. It has the same shape as a block id.
#[derive(Debug)]
pub struct NotebookId(String);

impl View for NotebookId {
    type V = Seq<char>;

    open spec fn view(&self) -> Seq<char> {
        self.text()
    }
}

impl NotebookId {
    /// The id text.
    pub closed spec fn text(&self) -> Seq<char> {
        self.0@
    }

    /// Every `NotebookId` holds text of the id shape.
    pub closed spec fn wf(&self) -> bool {
        is_id_text(self.0@)
    }

    /// Parses a notebook id; `Err(Invalid(s))` unless `s` has the id shape.
    pub fn parse(s: &str) -> (r: Result<NotebookId, IdError>)
        ensures
            r is Ok <==> is_id_text(s@),
            all_ascii(s@) ==> (r is Ok <==> ascii_id_shape(s@)),
            r matches Ok(id) ==> id@ == s@ && id.wf(),
            r matches Err(IdError::Invalid(t)) ==> t@ == s@,
    {
        if matches_id_shape(s) {
            Ok(NotebookId(crate::text::owned(s)))
        } else {
            Err(IdError::Invalid(crate::text::owned(s)))
        }
    }

    /// The id text.
    pub fn as_str(&self) -> (r: &str)
        ensures
            r@ == self@,
    {
        self.0.as_str()
    }

    /// The id text as an owned string.
    pub fn to_string(&self) -> (r: String)
        ensures
            r@ == self@,
    {
        self.0.clone()
    }

    /// A copy of this id.
    pub fn duplicate(&self) -> (r: NotebookId)
        ensures
            r@ == self@,
            self.wf() ==> r.wf(),
    {
        NotebookId(self.0.clone())
    }
}

impl Clone for NotebookId {
    fn clone(&self) -> (r: Self)
        ensures
            r@ == self@,
    {
        NotebookId(self.0.clone())
    }
}

impl PartialEq for NotebookId {
    fn eq(&self, other: &Self) -> (r: bool) {
        self.0 == other.0
    }
}

impl vstd::std_specs::cmp::PartialEqSpecImpl for NotebookId {
    open spec fn obeys_eq_spec() -> bool {
        true
    }

    open spec fn eq_spec(&self, other: &NotebookId) -> bool {
        self@ == other@
    }
}

impl Eq for NotebookId {}

impl std::str::FromStr for NotebookId {
    type Err = IdError;

    fn from_str(s: &str) -> (r: Result<Self, Self::Err>)
        ensures
            r is Ok <==> is_id_text(s@),
            r matches Ok(id) ==> id@ == s@ && id.wf(),
            r matches Err(IdError::Invalid(t)) ==> t@ == s@,
    {
        Self::parse(s)
    }
}

} // verus!
