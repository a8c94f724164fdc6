//! Compiled regular expressions, through the `regex` crate.
//!
//! What a regular expression matches is the `regex` crate's business: the
//! contracts below name its results (`regex_is_match`, `regex_find`, ...)
//! as functions of the pattern's source text and the haystack, and state
//! only the few facts that its documentation spells out.

use vstd::prelude::*;
use vstd::utf8::is_char_boundary;
use crate::text::utf8;

verus! {

#[verifier::external_type_specification]
#[verifier::external_body]
pub struct ExRegex(regex::Regex);

#[verifier::external_type_specification]
#[verifier::external_body]
pub struct ExRegexError(regex::Error);

/// Whether `regex::Regex::new` accepts the pattern.
pub uninterp spec fn regex_compiles(pattern: Seq<char>) -> bool;

/// What `Regex::is_match` answers for the pattern on the haystack.
pub uninterp spec fn regex_is_match(pattern: Seq<char>, haystack: Seq<char>) -> bool;

/// The byte span of the leftmost-first match that `Regex::find` reports.
pub uninterp spec fn regex_find(pattern: Seq<char>, haystack: Seq<char>) -> Option<(usize, usize)>;

/// The byte spans of the successive non-overlapping matches that
/// `Regex::find_iter` yields.
pub uninterp spec fn regex_find_iter(pattern: Seq<char>, haystack: Seq<char>) -> Seq<(usize, usize)>;

/// What `Regex::replace_all` produces for the pattern, haystack and replacement.
pub uninterp spec fn regex_replace_all(pattern: Seq<char>, haystack: Seq<char>, rep: Seq<char>) -> Seq<char>;

/// Calls `regex::Regex::new`: `Ok` exactly when the crate accepts the pattern.
#[verifier::external_body]
fn regex_new(pattern: &str) -> (r: Result<regex::Regex, regex::Error>)
    ensures
        r is Ok <==> regex_compiles(pattern@),
{
    regex::Regex::new(pattern)
}

/// A regular expression compiled from the source text it keeps. A `Pattern`
/// is only built by `Pattern::new`, so `re` is always what `Regex::new`
/// made of `source`.
pub struct Pattern {
    source: String,
    re: regex::Regex,
}

impl View for Pattern {
    type V = Seq<char>;

    /// The pattern's source text.
    closed spec fn view(&self) -> Seq<char> {
        self.source@
    }
}

impl Pattern {
    /// Compiles `source`; `None` where the `regex` crate rejects it.
    pub fn new(source: &str) -> (r: Option<Pattern>)
        ensures
            r is Some <==> regex_compiles(source@),
            r matches Some(p) ==> p@ == source@,
    {
        match regex_new(source) {
            Ok(re) => Some(Pattern { source: source.to_owned(), re }),
            Err(_) => None,
        }
    }

    /// Calls `Regex::is_match` on the regex compiled from this pattern's
    /// source (the only way a `Pattern` is built): its answer is named
    /// `regex_is_match`.
    #[verifier::external_body]
    pub(crate) fn is_match(&self, haystack: &str) -> (r: bool)
        ensures
            r == regex_is_match(self@, haystack@),
    {
        self.re.is_match(haystack)
    }

    /// Calls `Regex::find` and keeps the match's byte offsets. As the crate
    /// documents, there is a match exactly when `is_match` says so, and
    /// `start <= end`, both on character boundaries of the haystack (so
    /// slicing the haystack with them never panics).
    #[verifier::external_body]
    pub(crate) fn find(&self, haystack: &str) -> (r: Option<(usize, usize)>)
        ensures
            r == regex_find(self@, haystack@),
            r is Some <==> regex_is_match(self@, haystack@),
            r matches Some((s, e)) ==> s <= e <= utf8(haystack@).len() && is_char_boundary(
                utf8(haystack@),
                s as int,
            ) && is_char_boundary(utf8(haystack@), e as int),
    {
        match self.re.find(haystack) {
            Some(m) => Some((m.start(), m.end())),
            None => None,
        }
    }

    /// Calls `Regex::find_iter` and keeps each match's byte offsets, in the
    /// order the iterator yields them; the list is named `regex_find_iter`.
    #[verifier::external_body]
    pub(crate) fn find_iter(&self, haystack: &str) -> (r: Vec<(usize, usize)>)
        ensures
            r@ == regex_find_iter(self@, haystack@),
    {
        self.re.find_iter(haystack).map(|m| (m.start(), m.end())).collect()
    }

    /// Calls `Regex::replace_all` with a `&str` replacement (in which, as
    /// the crate documents, `$name` refers to a capture group); the result
    /// is named `regex_replace_all`.
    #[verifier::external_body]
    pub(crate) fn replace_all(&self, haystack: &str, rep: &str) -> (r: String)
        ensures
            r@ == regex_replace_all(self@, haystack@, rep@),
    {
        self.re.replace_all(haystack, rep).into_owned()
    }
}

} // verus!
