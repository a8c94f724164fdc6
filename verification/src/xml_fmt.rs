//! Laying out XML comments.

use vstd::prelude::*;
use crate::handle_ncurly_perl::{newline_and_tabs, newline_tabs};
use crate::pattern::{Pattern, regex_find, regex_is_match};
use crate::text::{byte_range, push_str, replace, replace_spec, slice, slice_ok, tabs, tabs_spec};

verus! {

/// The text that `regex_find` reports for the pattern in `s` (empty where
/// it reports nothing).
pub open spec fn found_text(pattern: Seq<char>, s: Seq<char>) -> Seq<char> {
    match regex_find(pattern, s) {
        Some((a, b)) => byte_range(s, a as int, b as int),
        None => Seq::<char>::empty(),
    }
}

/// A comment's text with every line break indented by `n` tabs.
pub open spec fn comment_line_spec(line: Seq<char>, n: nat) -> Seq<char> {
    replace_spec(line, "\n"@, newline_tabs(n))
}

/// `xml` followed by the indented comment body that the pattern finds and
/// the closing `"> -->"`.
pub open spec fn comments_spec(xml: Seq<char>, n: nat, line: Seq<char>, pattern: Seq<char>) -> Seq<char> {
    xml + tabs_spec(n) + found_text(pattern, comment_line_spec(line, n)) + "> -->"@
}

/// `xml` followed by the indented comment body that the pattern finds and
/// the closing `"-->"`.
pub open spec fn body_spec(xml: Seq<char>, n: nat, line: Seq<char>, pattern: Seq<char>) -> Seq<char> {
    xml + tabs_spec(n) + found_text(pattern, comment_line_spec(line, n)) + "-->"@
}

/// Given where the comment pattern matched the indented line (`span`, byte
/// offsets), appends the matched text indented by `tab_mult` tabs, then
/// `close`.
pub fn comment_layout(xml_out: &mut String, tab_mult: usize, indented: &str, span: (usize, usize), close: &str)
    requires
        slice_ok(indented@, span.0 as int, span.1 as int),
    ensures
        final(xml_out)@ == old(xml_out)@ + tabs_spec(tab_mult as nat) + byte_range(indented@, span.0 as int, span.1 as int) + close@,
{
    let found = slice(indented, span.0, span.1).unwrap();
    let t = tabs(tab_mult);
    push_str(xml_out, t.as_str());
    push_str(xml_out, found.as_str());
    push_str(xml_out, close);
}

/// The line with its line breaks indented by `tab_mult` tabs, and where the
/// pattern matches in it.
fn indented_comment(line: &str, pattern: &Pattern, tab_mult: usize) -> (r: (String, (usize, usize)))
    requires
        regex_is_match(pattern@, comment_line_spec(line@, tab_mult as nat)),
    ensures
        r.0@ == comment_line_spec(line@, tab_mult as nat),
        regex_find(pattern@, r.0@) == Some(r.1),
        slice_ok(r.0@, r.1.0 as int, r.1.1 as int),
{
    let nt = newline_and_tabs(tab_mult);
    let indented = replace(line, "\n", nt.as_str());
    let span = pattern.find(indented.as_str()).unwrap();
    (indented, span)
}

/// Appends a comment that ends in this piece of input: the text the
/// `xml_comment_body` pattern finds in the line (its line breaks indented
/// by `tab_mult` tabs), indented, then `"> -->"`. Returns the indented line,
/// `tab_mult` and the new output.
pub fn comments(line: String, xml_comment_body: &Pattern, tab_mult: usize, xml_out: &mut String) -> (r: (String, usize, String))
    requires
        regex_is_match(xml_comment_body@, comment_line_spec(line@, tab_mult as nat)),
    ensures
        final(xml_out)@ == comments_spec(old(xml_out)@, tab_mult as nat, line@, xml_comment_body@),
        r.0@ == comment_line_spec(line@, tab_mult as nat),
        r.1 == tab_mult,
        r.2@ == final(xml_out)@,
{
    let (indented, span) = indented_comment(line.as_str(), xml_comment_body, tab_mult);
    comment_layout(xml_out, tab_mult, indented.as_str(), span, "> -->");
    (indented, tab_mult, xml_out.clone())
}

/// Appends the body of a comment: the text the `xml_comment_body` pattern
/// finds in the line (its line breaks indented by `tab_mult` tabs),
/// indented, then `"-->"`. Returns the indented line, `tab_mult` and the new
/// output.
pub fn body(line: String, xml_comment_body: &Pattern, tab_mult: usize, xml_out: &mut String) -> (r: (String, usize, String))
    requires
        regex_is_match(xml_comment_body@, comment_line_spec(line@, tab_mult as nat)),
    ensures
        final(xml_out)@ == body_spec(old(xml_out)@, tab_mult as nat, line@, xml_comment_body@),
        r.0@ == comment_line_spec(line@, tab_mult as nat),
        r.1 == tab_mult,
        r.2@ == final(xml_out)@,
{
    let (indented, span) = indented_comment(line.as_str(), xml_comment_body, tab_mult);
    comment_layout(xml_out, tab_mult, indented.as_str(), span, "-->");
    (indented, tab_mult, xml_out.clone())
}

} // verus!
