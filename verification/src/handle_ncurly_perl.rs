//! Laying out the Perl code of a CDATA section.

use vstd::prelude::*;
use crate::pattern::{Pattern, regex_is_match};
use vstd::utf8::is_ascii_chars_encode_utf8;
use crate::text::{lemma_replace_absent, lemma_replace_last_char, lemma_utf8_concat, lemma_utf8_no_newline, byte_at, pop_char, pop_spec, push_char, push_str, replace, replace_spec, tabs, tabs_spec, utf8};

verus! {

/// The opening of a CDATA section.
pub open spec fn cdata_open() -> Seq<char> {
    "<![CDATA["@
}

/// A newline followed by `n` tabs.
pub open spec fn newline_tabs(n: nat) -> Seq<char> {
    seq!['\n'] + tabs_spec(n)
}

/// The Perl code with a line break and `n` tabs after every `;`, the whole
/// indented by `n` tabs and appended to `temp`, minus the last character.
pub open spec fn lines_spec(temp: Seq<char>, perl: Seq<char>, n: nat) -> Seq<char> {
    pop_spec(temp + tabs_spec(n) + replace_spec(perl, ";"@, ";"@ + tabs_spec(n)))
}

/// `xml` followed by a CDATA section holding `perl`, where `perl` already
/// ends its last line.
pub open spec fn chunk3_spec(xml: Seq<char>, n: nat, perl: Seq<char>) -> Seq<char> {
    xml + tabs_spec(n) + cdata_open() + perl + tabs_spec(n) + "]]>\n"@
}

/// `xml` followed by a CDATA section holding `perl`, with a line break
/// added after it.
pub open spec fn chunk4_spec(xml: Seq<char>, n: nat, perl: Seq<char>) -> Seq<char> {
    xml + tabs_spec(n) + cdata_open() + perl + seq!['\n'] + tabs_spec(n) + "]]>\n"@
}

/// `xml` followed by a one-line CDATA section whose inner line breaks are
/// indented by `n` tabs.
pub open spec fn single_line_spec(xml: Seq<char>, n: nat, perl: Seq<char>) -> Seq<char> {
    xml + tabs_spec(n) + cdata_open() + replace_spec(perl, "\n"@, newline_tabs(n)) + "]]>\n"@
}

/// The Perl code with `n` tabs after each line break, then without the tab
/// just before any line break.
pub open spec fn reindent_spec(perl: Seq<char>, n: nat) -> Seq<char> {
    replace_spec(replace_spec(perl, "\n"@, newline_tabs(n)), "\t\n"@, "\n"@)
}

/// Where the `tab_nl` pattern matched (`matched`), the `n - 1` extra tabs
/// before each indented line break folded into `n` tabs; otherwise the text
/// as it is.
pub open spec fn fold_tabs_spec(text: Seq<char>, n: nat, matched: bool) -> Seq<char> {
    if matched {
        replace_spec(text, tabs_spec((n - 1) as nat) + newline_tabs(n), tabs_spec(n))
    } else {
        text
    }
}

/// The Perl code as `inline` re-indents it for depth `n`: `reindent_spec`,
/// then `fold_tabs_spec` as the `tab_nl` pattern answers on that text.
pub open spec fn inline_text_spec(perl: Seq<char>, n: nat, tab_nl: Seq<char>) -> Seq<char> {
    let t = reindent_spec(perl, n);
    fold_tabs_spec(t, n, regex_is_match(tab_nl, t))
}

/// Where `inline` does not panic: a depth of at least one, and a re-indented
/// text of more than `n` bytes.
pub open spec fn inline_ok(perl: Seq<char>, n: nat, tab_nl: Seq<char>) -> bool {
    n >= 1 && utf8(inline_text_spec(perl, n, tab_nl)).len() >= n + 1
}

/// `xml` followed by a CDATA section holding the re-indented text `t` at
/// depth `n`: a line break and indentation is added at the start unless
/// `t` starts with a line break, and at the end unless the byte `n + 1`
/// from the end of `t` is one.
pub open spec fn inline_layout_spec(xml: Seq<char>, n: nat, t: Seq<char>) -> Seq<char> {
    let starts = utf8(t)[0] == 10u8;
    let ends = utf8(t)[utf8(t).len() - 1 - n] == 10u8;
    if starts && ends {
        chunk3_spec(xml, n, t)
    } else if starts {
        xml + tabs_spec(n) + cdata_open() + tabs_spec(n) + t + seq!['\n'] + tabs_spec(n) + "]]>\n"@
    } else if ends {
        xml + tabs_spec(n) + cdata_open() + newline_tabs(n) + t + "]]>\n"@
    } else {
        xml + tabs_spec(n) + cdata_open() + newline_tabs(n) + t + seq!['\n'] + tabs_spec(n) + "]]>\n"@
    }
}

/// `xml` followed by the CDATA section that `inline` writes.
pub open spec fn inline_spec(xml: Seq<char>, n: nat, perl: Seq<char>, tab_nl: Seq<char>) -> Seq<char> {
    inline_layout_spec(xml, n, inline_text_spec(perl, n, tab_nl))
}

/// A line break followed by `n` tabs, as a string.
pub(crate) fn newline_and_tabs(n: usize) -> (r: String)
    ensures
        r@ == newline_tabs(n as nat),
{
    let t = tabs(n);
    let mut r = String::new();
    push_char(&mut r, '\n');
    push_str(&mut r, t.as_str());
    r
}

/// Lays out Perl code without braces: every `;` is followed by a line break
/// and `tab_mult` tabs, the code is indented by `tab_mult` tabs and added to
/// `temp_perl`, and the last character is dropped. Returns the new
/// `temp_perl` and `tab_mult` unchanged.
pub fn multiple_lines(perl_code: &String, temp_perl: &mut String, tab_mult: usize) -> (r: (String, usize))
    ensures
        final(temp_perl)@ == lines_spec(old(temp_perl)@, perl_code@, tab_mult as nat),
        r.0@ == final(temp_perl)@,
        r.1 == tab_mult,
{
    let t = tabs(tab_mult);
    let mut sep = String::new();
    push_str(&mut sep, ";");
    push_str(&mut sep, t.as_str());
    let body = replace(perl_code.as_str(), ";", sep.as_str());
    push_str(temp_perl, t.as_str());
    push_str(temp_perl, body.as_str());
    let ghost before = temp_perl@;
    proof {
        reveal_strlit(";");
    }
    push_str(temp_perl, ";");
    assert(temp_perl@.drop_last() =~= before);
    pop_char(temp_perl);
    pop_char(temp_perl);
    (temp_perl.clone(), tab_mult)
}

/// Appends a CDATA section holding `perl_code` (which already ends its last
/// line) at depth `tab_mult`. Returns the new output and `tab_mult`.
pub fn chunk3(xml_out: &mut String, tab_mult: usize, perl_code: &String) -> (r: (String, usize))
    ensures
        final(xml_out)@ == chunk3_spec(old(xml_out)@, tab_mult as nat, perl_code@),
        r.0@ == final(xml_out)@,
        r.1 == tab_mult,
{
    let t = tabs(tab_mult);
    push_str(xml_out, t.as_str());
    push_str(xml_out, "<![CDATA[");
    push_str(xml_out, perl_code.as_str());
    push_str(xml_out, t.as_str());
    push_str(xml_out, "]]>\n");
    (xml_out.clone(), tab_mult)
}

/// Appends a CDATA section holding `perl_code` and a line break after it,
/// at depth `tab_mult`. Returns the new output and `tab_mult`.
pub fn chunk4(xml_out: &mut String, tab_mult: usize, perl_code: &String) -> (r: (String, usize))
    ensures
        final(xml_out)@ == chunk4_spec(old(xml_out)@, tab_mult as nat, perl_code@),
        r.0@ == final(xml_out)@,
        r.1 == tab_mult,
{
    proof {
        reveal_strlit("\n");
    }
    let t = tabs(tab_mult);
    push_str(xml_out, t.as_str());
    push_str(xml_out, "<![CDATA[");
    push_str(xml_out, perl_code.as_str());
    push_str(xml_out, "\n");
    push_str(xml_out, t.as_str());
    push_str(xml_out, "]]>\n");
    (xml_out.clone(), tab_mult)
}

/// Appends a one-line CDATA section at depth `tab_mult`, indenting the line
/// breaks inside it. Returns the new output and `tab_mult`.
pub fn single_line(xml_out: &mut String, tab_mult: usize, perl_code: &String) -> (r: (String, usize))
    ensures
        final(xml_out)@ == single_line_spec(old(xml_out)@, tab_mult as nat, perl_code@),
        r.0@ == final(xml_out)@,
        r.1 == tab_mult,
{
    let nt = newline_and_tabs(tab_mult);
    let body = replace(perl_code.as_str(), "\n", nt.as_str());
    let t = tabs(tab_mult);
    push_str(xml_out, t.as_str());
    push_str(xml_out, "<![CDATA[");
    push_str(xml_out, body.as_str());
    push_str(xml_out, "]]>\n");
    (xml_out.clone(), tab_mult)
}

/// The Perl code with `tab_mult` tabs after each line break, then without
/// the tab just before any line break.
pub fn reindent(perl_code: &str, tab_mult: usize) -> (r: String)
    ensures
        r@ == reindent_spec(perl_code@, tab_mult as nat),
{
    let nt = newline_and_tabs(tab_mult);
    let t1 = replace(perl_code, "\n", nt.as_str());
    replace(t1.as_str(), "\t\n", "\n")
}

/// Given whether the `tab_nl` pattern matched the text, folds the
/// `tab_mult - 1` extra tabs before each indented line break into
/// `tab_mult` tabs (or leaves the text as it is).
pub fn fold_tabs(text: &str, tab_mult: usize, tab_nl_matched: bool) -> (r: String)
    requires
        tab_mult >= 1,
    ensures
        r@ == fold_tabs_spec(text@, tab_mult as nat, tab_nl_matched),
{
    let nt = newline_and_tabs(tab_mult);
    let mut wide = tabs(tab_mult - 1);
    push_str(&mut wide, nt.as_str());
    if tab_nl_matched {
        let t = tabs(tab_mult);
        replace(text, wide.as_str(), t.as_str())
    } else {
        text.to_owned()
    }
}

/// The re-indented text of `inline`.
pub(crate) fn inline_text(perl_code: &str, tab_mult: usize, tab_nl: &Pattern) -> (r: String)
    requires
        tab_mult >= 1,
    ensures
        r@ == inline_text_spec(perl_code@, tab_mult as nat, tab_nl@),
{
    let t = reindent(perl_code, tab_mult);
    let matched = tab_nl.is_match(t.as_str());
    fold_tabs(t.as_str(), tab_mult, matched)
}

/// Appends the CDATA section for the re-indented text `text` at depth
/// `tab_mult`; see `inline_layout_spec`.
pub fn inline_layout(xml_out: &mut String, tab_mult: usize, text: &String)
    requires
        utf8(text@).len() >= tab_mult + 1,
    ensures
        final(xml_out)@ == inline_layout_spec(old(xml_out)@, tab_mult as nat, text@),
{
    let len = text.as_str().as_bytes().len();
    let starts = byte_at(text.as_str(), 0) == 10u8;
    let ends = byte_at(text.as_str(), len - 1 - tab_mult) == 10u8;
    let t = tabs(tab_mult);
    proof {
        reveal_strlit("\n");
    }
    if starts && ends {
        chunk3(xml_out, tab_mult, text);
    } else if starts {
        push_str(xml_out, t.as_str());
        push_str(xml_out, "<![CDATA[");
        push_str(xml_out, t.as_str());
        push_str(xml_out, text.as_str());
        push_str(xml_out, "\n");
        push_str(xml_out, t.as_str());
        push_str(xml_out, "]]>\n");
    } else if ends {
        push_str(xml_out, t.as_str());
        push_str(xml_out, "<![CDATA[");
        push_str(xml_out, "\n");
        push_str(xml_out, t.as_str());
        push_str(xml_out, text.as_str());
        push_str(xml_out, "]]>\n");
    } else {
        push_str(xml_out, t.as_str());
        push_str(xml_out, "<![CDATA[");
        push_str(xml_out, "\n");
        push_str(xml_out, t.as_str());
        push_str(xml_out, text.as_str());
        push_str(xml_out, "\n");
        push_str(xml_out, t.as_str());
        push_str(xml_out, "]]>\n");
    }
}

/// Appends a CDATA section for Perl code that was written inline, at depth
/// `tab_mult`: the code is re-indented as `inline_text_spec` says, and laid
/// out by `inline_layout`. Returns the new output and `tab_mult`.
pub fn inline(xml_out: &mut String, tab_mult: usize, perl_code: &String, tab_nl: &Pattern) -> (r: (String, usize))
    requires
        inline_ok(perl_code@, tab_mult as nat, tab_nl@),
    ensures
        final(xml_out)@ == inline_spec(old(xml_out)@, tab_mult as nat, perl_code@, tab_nl@),
        r.0@ == final(xml_out)@,
        r.1 == tab_mult,
{
    let temp_perl = inline_text(perl_code.as_str(), tab_mult, tab_nl);
    inline_layout(xml_out, tab_mult, &temp_perl);
    (xml_out.clone(), tab_mult)
}


/// A one-line inline section is laid out the same whether or not its code
/// ends with a line break: a code with no line break or tab and more than
/// `n` bytes, where the `tab_nl` pattern matches neither re-indented text
/// (the code, and the code followed by a line break and `n` tabs).
pub proof fn lemma_inline_trailing_newline(xml: Seq<char>, n: nat, perl: Seq<char>, tab_nl: Seq<char>)
    requires
        n >= 1,
        !perl.contains('\n'),
        !perl.contains('\t'),
        utf8(perl).len() > n,
        !regex_is_match(tab_nl, perl),
        !regex_is_match(tab_nl, perl + newline_tabs(n)),
    ensures
        inline_ok(perl, n, tab_nl),
        inline_ok(perl.push('\n'), n, tab_nl),
        inline_spec(xml, n, perl.push('\n'), tab_nl) == inline_spec(xml, n, perl, tab_nl),
{
    reveal_strlit("\n");
    reveal_strlit("\t\n");
    let nt = newline_tabs(n);
    let q = perl + nt;
    assert("\n"@ =~= seq!['\n']);
    assert("\t\n"@ =~= seq!['\t', '\n']);
    // the code alone holds neither pattern
    assert forall|i: int| 0 <= i && i + 1 <= perl.len() implies #[trigger] perl.subrange(i, i + 1) != "\n"@ by {
        if perl.subrange(i, i + 1) == "\n"@ {
            assert(perl.subrange(i, i + 1)[0] == perl[i]);
        }
    }
    lemma_replace_absent(perl, "\n"@, nt);
    assert forall|i: int| 0 <= i && i + 2 <= perl.len() implies #[trigger] perl.subrange(i, i + 2) != "\t\n"@ by {
        if perl.subrange(i, i + 2) == "\t\n"@ {
            assert(perl.subrange(i, i + 2)[0] == perl[i]);
        }
    }
    lemma_replace_absent(perl, "\t\n"@, "\n"@);
    assert(reindent_spec(perl, n) == perl);
    // with a line break at the end, that line break gets the tabs
    lemma_replace_last_char(perl, '\n', nt);
    assert(reindent_spec(perl.push('\n'), n) == replace_spec(q, "\t\n"@, "\n"@));
    assert forall|i: int| 0 <= i && i + 2 <= q.len() implies #[trigger] q.subrange(i, i + 2) != "\t\n"@ by {
        if q.subrange(i, i + 2) == "\t\n"@ {
            assert(q[i] == '\t' && q[i + 1] == '\n');
            if i + 1 < perl.len() {
                assert(perl[i + 1] == '\n');
            } else if i + 1 == perl.len() {
                assert(perl[i] == '\t');
            } else {
                assert(q[i + 1] == nt[i + 1 - perl.len()]);
            }
        }
    }
    lemma_replace_absent(q, "\t\n"@, "\n"@);
    assert(inline_text_spec(perl, n, tab_nl) == perl);
    assert(inline_text_spec(perl.push('\n'), n, tab_nl) == q);
    // bytes: the code has no line-break byte; the line break and tabs are
    // one byte each
    lemma_utf8_no_newline(perl);
    lemma_utf8_concat(perl, nt);
    assert(vstd::utf8::is_ascii_chars(nt));
    is_ascii_chars_encode_utf8(nt);
    let l = utf8(perl).len();
    assert(utf8(nt).len() == n + 1);
    assert(utf8(nt)[0] == 10u8);
    assert(utf8(q)[0] == utf8(perl)[0]);
    assert(utf8(q)[utf8(q).len() - 1 - n] == utf8(nt)[0]);
    assert(utf8(perl)[l - 1 - n] != 10u8);
    assert(inline_layout_spec(xml, n, q) =~= inline_layout_spec(xml, n, perl));
}

} // verus!
