//! One step of the formatter: a piece of input (the text before a `>`) is
//! laid out, carrying the indentation depth, the output written so far and
//! any CDATA section still open from one piece to the next.

use vstd::prelude::*;
use crate::cdata::{cdata_close, cdata_close_spec, lemma_cdata_close_extends};
use crate::element::{element_lines, element_lines_spec, special, special_spec};
use crate::pattern::{Pattern, regex_compiles, regex_find, regex_is_match};
use crate::text::{lemma_replace_absent, lemma_replace_once, byte_range, push_char, push_str, replace, replace_spec, slice_ok, tabs_spec};
use crate::xml_fmt::{body, body_spec, comment_line_spec, comments, comments_spec};

verus! {

/// Why a piece of input cannot be laid out.
#[derive(Debug, Clone, Copy)]
pub enum Fault {
    /// A string was sliced out of range or inside a character.
    BadSlice,
    /// An unsigned subtraction went below zero.
    Underflow,
    /// An unsigned addition went past the largest value.
    Overflow,
    /// A byte index was past the end of a string.
    ByteIndex,
    /// A search that was expected to succeed found nothing.
    NoMatch,
    /// A piece of input was not valid UTF-8.
    BadUtf8,
}

/// The regular expressions the formatter uses.
pub struct Patterns {
    /// Text before a tag: `(\S+\s*)+<`.
    pub special_perc: Pattern,
    /// The start of a CDATA section.
    pub begin_cdata: Pattern,
    /// A CDATA section on one line.
    pub one_line_cdata: Pattern,
    /// The end of a CDATA section: `]]`.
    pub end_cdata: Pattern,
    /// A `;`.
    pub semicolon: Pattern,
    /// A brace.
    pub curly: Pattern,
    /// The characters the brace layout looks at: `[<>{};\s#$]`.
    pub curly_semi_alligator_newl_comm_dolla: Pattern,
    /// A tab before a line break.
    pub tab_nl: Pattern,
    /// A run of white space.
    pub rm_ws: Pattern,
    /// The body of a comment.
    pub xml_comment_body: Pattern,
    /// A comment that ends the piece.
    pub end_xml_comment_body: Pattern,
    /// The `<?xml ...?` declaration.
    pub xml_file_version: Pattern,
    /// An opening tag's name: `<(\w+)`.
    pub head_string: Pattern,
    /// A run of attributes.
    pub bod_strings: Pattern,
    /// An attribute name with its `=`.
    pub in_declaration: Pattern,
    /// A piece that does not end in `=`.
    pub in_quotes: Pattern,
    /// A self-closing tag's `/`.
    pub end_slash: Pattern,
    /// A closing tag: `</name`.
    pub foot_slash: Pattern,
}

impl Patterns {
    /// Each pattern is compiled from its source text below.
    pub open spec fn wf(&self) -> bool {
        &&& self.special_perc@ == r#"(\S+\s*)+<"#@
        &&& self.begin_cdata@ == r#"<!\[CDATA\["#@
        &&& self.one_line_cdata@ == r#"<!\[CDATA\[[^\n]+\]\]"#@
        &&& self.end_cdata@ == r#"]]"#@
        &&& self.semicolon@ == r#";"#@
        &&& self.curly@ == r#"[{}]"#@
        &&& self.curly_semi_alligator_newl_comm_dolla@ == r#"[<>{};\s#$]"#@
        &&& self.tab_nl@ == r#"\t\n"#@
        &&& self.rm_ws@ == r"\s+"@
        &&& self.xml_comment_body@ == r#"<!--[\s\S]+[^-][^-]"#@
        &&& self.end_xml_comment_body@ == r#"<!--[\s\S]+[^-][^-]$"#@
        &&& self.xml_file_version@ == r#"<\?[^?]*\?"#@
        &&& self.head_string@ == r#"<(\w+)"#@
        &&& self.bod_strings@ == r#"(\s*[[:word:]]+="[^"]*")+"#@
        &&& self.in_declaration@ == r#"^\s*(.+)=$"#@
        &&& self.in_quotes@ == r#"[^=]$"#@
        &&& self.end_slash@ == r#"\s*/$"#@
        &&& self.foot_slash@ == r#"</[[:word:]]+"#@
    }

    /// Whether the `regex` crate accepts every one of the source texts.
    pub open spec fn all_compile() -> bool {
        &&& regex_compiles(r#"(\S+\s*)+<"#@)
        &&& regex_compiles(r#"<!\[CDATA\["#@)
        &&& regex_compiles(r#"<!\[CDATA\[[^\n]+\]\]"#@)
        &&& regex_compiles(r#"]]"#@)
        &&& regex_compiles(r#";"#@)
        &&& regex_compiles(r#"[{}]"#@)
        &&& regex_compiles(r#"[<>{};\s#$]"#@)
        &&& regex_compiles(r#"\t\n"#@)
        &&& regex_compiles(r"\s+"@)
        &&& regex_compiles(r#"<!--[\s\S]+[^-][^-]"#@)
        &&& regex_compiles(r#"<!--[\s\S]+[^-][^-]$"#@)
        &&& regex_compiles(r#"<\?[^?]*\?"#@)
        &&& regex_compiles(r#"<(\w+)"#@)
        &&& regex_compiles(r#"(\s*[[:word:]]+="[^"]*")+"#@)
        &&& regex_compiles(r#"^\s*(.+)=$"#@)
        &&& regex_compiles(r#"[^=]$"#@)
        &&& regex_compiles(r#"\s*/$"#@)
        &&& regex_compiles(r#"</[[:word:]]+"#@)
    }

    /// Compiles the formatter's patterns; `None` where the `regex` crate
    /// rejects one of them.
    pub fn new() -> (r: Option<Patterns>)
        ensures
            r is Some <==> Self::all_compile(),
            r matches Some(p) ==> p.wf(),
    {
        let special_perc = Pattern::new(r#"(\S+\s*)+<"#)?;
        let begin_cdata = Pattern::new(r#"<!\[CDATA\["#)?;
        let one_line_cdata = Pattern::new(r#"<!\[CDATA\[[^\n]+\]\]"#)?;
        let end_cdata = Pattern::new(r#"]]"#)?;
        let semicolon = Pattern::new(r#";"#)?;
        let curly = Pattern::new(r#"[{}]"#)?;
        let curly_semi_alligator_newl_comm_dolla = Pattern::new(r#"[<>{};\s#$]"#)?;
        let tab_nl = Pattern::new(r#"\t\n"#)?;
        let rm_ws = Pattern::new(r"\s+")?;
        let xml_comment_body = Pattern::new(r#"<!--[\s\S]+[^-][^-]"#)?;
        let end_xml_comment_body = Pattern::new(r#"<!--[\s\S]+[^-][^-]$"#)?;
        let xml_file_version = Pattern::new(r#"<\?[^?]*\?"#)?;
        let head_string = Pattern::new(r#"<(\w+)"#)?;
        let bod_strings = Pattern::new(r#"(\s*[[:word:]]+="[^"]*")+"#)?;
        let in_declaration = Pattern::new(r#"^\s*(.+)=$"#)?;
        let in_quotes = Pattern::new(r#"[^=]$"#)?;
        let end_slash = Pattern::new(r#"\s*/$"#)?;
        let foot_slash = Pattern::new(r#"</[[:word:]]+"#)?;
        Some(Patterns {
            special_perc,
            begin_cdata,
            one_line_cdata,
            end_cdata,
            semicolon,
            curly,
            curly_semi_alligator_newl_comm_dolla,
            tab_nl,
            rm_ws,
            xml_comment_body,
            end_xml_comment_body,
            xml_file_version,
            head_string,
            bod_strings,
            in_declaration,
            in_quotes,
            end_slash,
            foot_slash,
        })
    }
}

/// A piece of input with blank lines, tabs and runs of spaces collapsed.
pub open spec fn clean_spec(s: Seq<char>) -> Seq<char> {
    let s1 = replace_spec(s, "\n\n"@, "\n"@);
    let s2 = replace_spec(s1, "\t"@, ""@);
    let s3 = replace_spec(s2, "     "@, " "@);
    let s4 = replace_spec(s3, "    "@, " "@);
    let s5 = replace_spec(s4, "   "@, " "@);
    replace_spec(s5, "  "@, " "@)
}

/// Collapses blank lines, tabs and runs of spaces in a piece of input.
pub fn clean_line(s: &str) -> (r: String)
    ensures
        r@ == clean_spec(s@),
{
    let s1 = replace(s, "\n\n", "\n");
    let s2 = replace(s1.as_str(), "\t", "");
    let s3 = replace(s2.as_str(), "     ", " ");
    let s4 = replace(s3.as_str(), "    ", " ");
    let s5 = replace(s4.as_str(), "   ", " ");
    replace(s5.as_str(), "  ", " ")
}


/// The state after a piece of plain XML.
pub struct StateView {
    pub xml_out: Seq<char>,
    pub tab_mult: usize,
    pub perl_code: Seq<char>,
    pub in_cdata: bool,
}

/// A piece outside CDATA and comments: line breaks become spaces, text
/// before the tag is written on a line of its own, an `<?xml` declaration
/// is copied, and otherwise the element's lines follow, without spaces
/// around `=`.
pub open spec fn element_spec(p: &Patterns, st: StateView, line: Seq<char>) -> Result<(StateView, Option<Seq<char>>), Fault> {
    let l2 = replace_spec(line, "\n"@, " "@);
    match special_spec(p, st.xml_out, st.tab_mult, l2) {
        Err(f) => Err(f),
        Ok(x1) => if regex_is_match(p.xml_file_version@, l2) {
            Ok((StateView { xml_out: x1 + l2 + ">\n"@, ..st }, None))
        } else {
            let l3 = replace_spec(replace_spec(l2, " ="@, "="@), "= "@, "="@);
            match element_lines_spec(p, st.tab_mult, l3) {
                Err(f) => Err(f),
                Ok((pc, t, w)) => Ok((StateView { xml_out: x1 + pc, tab_mult: t, ..st }, w)),
            }
        },
    }
}

/// A piece inside a CDATA section: collected (with the `>` that ended it)
/// until the piece that holds `]]`, which lays the whole section out.
pub open spec fn cdata_step_spec(p: &Patterns, st: StateView, line: Seq<char>) -> Result<StateView, Fault> {
    if line.len() == 0 {
        Ok(StateView { perl_code: st.perl_code + seq!['>'], in_cdata: true, ..st })
    } else {
        let perl = st.perl_code + line;
        if !regex_is_match(p.end_cdata@, line) {
            Ok(StateView { perl_code: perl + seq!['>'], in_cdata: true, ..st })
        } else {
            match cdata_close_spec(p, st.xml_out, st.tab_mult, perl, line) {
                Ok((x, t)) => Ok(StateView { xml_out: x, tab_mult: t, perl_code: Seq::<char>::empty(), in_cdata: false }),
                Err(f) => Err(f),
            }
        }
    }
}

/// The state after one piece of input (the text up to, not including, a
/// `>`), and the warning printed for it, if any; or why it cannot be laid
/// out.
#[verifier::opaque]
pub open spec fn step_spec(p: &Patterns, st: StateView, chunk: Seq<char>) -> Result<(StateView, Option<Seq<char>>), Fault> {
    let line = clean_spec(chunk);
    if regex_is_match(p.begin_cdata@, line) || st.in_cdata {
        match cdata_step_spec(p, st, line) {
            Ok(s2) => Ok((s2, None)),
            Err(f) => Err(f),
        }
    } else if regex_is_match(p.end_xml_comment_body@, line) {
        if regex_is_match(p.xml_comment_body@, comment_line_spec(line, st.tab_mult as nat)) {
            Ok((StateView { xml_out: comments_spec(st.xml_out, st.tab_mult as nat, line, p.xml_comment_body@), ..st }, None))
        } else {
            Err(Fault::NoMatch)
        }
    } else if regex_is_match(p.xml_comment_body@, line) {
        if regex_is_match(p.xml_comment_body@, comment_line_spec(line, st.tab_mult as nat)) {
            Ok((StateView { xml_out: body_spec(st.xml_out, st.tab_mult as nat, line, p.xml_comment_body@), ..st }, None))
        } else {
            Err(Fault::NoMatch)
        }
    } else {
        element_spec(p, st, line)
    }
}


/// The view of an optional owned string.
pub open spec fn opt_view(o: Option<String>) -> Option<Seq<char>> {
    match o {
        Some(s) => Some(s@),
        None => None,
    }
}

/// The formatter's state between two pieces of input.
pub struct FmtState {
    /// The output so far.
    pub xml_out: String,
    /// The indentation depth.
    pub tab_mult: usize,
    /// The CDATA section collected so far.
    pub perl_code: String,
    /// Whether a CDATA section is open.
    pub in_cdata: bool,
}

impl View for FmtState {
    type V = StateView;

    open spec fn view(&self) -> StateView {
        StateView {
            xml_out: self.xml_out@,
            tab_mult: self.tab_mult,
            perl_code: self.perl_code@,
            in_cdata: self.in_cdata,
        }
    }
}

/// The state before any input: nothing written, depth zero, no CDATA open.
pub open spec fn start_spec() -> StateView {
    StateView { xml_out: Seq::<char>::empty(), tab_mult: 0, perl_code: Seq::<char>::empty(), in_cdata: false }
}

impl FmtState {
    /// The state before any input.
    pub fn new() -> (r: FmtState)
        ensures
            r@ == start_spec(),
    {
        FmtState { xml_out: String::new(), tab_mult: 0, perl_code: String::new(), in_cdata: false }
    }

    /// See `element_spec`.
    fn element(&mut self, p: &Patterns, line: &str) -> (r: Result<Option<String>, Fault>)
        ensures
            match element_spec(p, old(self)@, line@) {
                Ok((s2, w)) => r matches Ok(w2) && final(self)@ == s2 && opt_view(w2) == w,
                Err(f) => r == Err::<Option<String>, Fault>(f),
            },
    {
        let l2 = replace(line, "\n", " ");
        match special(p, &mut self.xml_out, self.tab_mult, l2.as_str()) {
            Ok(()) => {},
            Err(f) => return Err(f),
        }
        if p.xml_file_version.is_match(l2.as_str()) {
            push_str(&mut self.xml_out, l2.as_str());
            push_str(&mut self.xml_out, ">\n");
            return Ok(None);
        }
        let l3a = replace(l2.as_str(), " =", "=");
        let l3 = replace(l3a.as_str(), "= ", "=");
        match element_lines(p, self.tab_mult, l3.as_str()) {
            Ok((pc, t, w)) => {
                push_str(&mut self.xml_out, pc.as_str());
                self.tab_mult = t;
                Ok(w)
            },
            Err(f) => Err(f),
        }
    }

    /// See `cdata_step_spec`.
    fn cdata_step(&mut self, p: &Patterns, line: &str) -> (r: Result<(), Fault>)
        ensures
            match cdata_step_spec(p, old(self)@, line@) {
                Ok(s2) => r is Ok && final(self)@ == s2,
                Err(f) => r == Err::<(), Fault>(f),
            },
    {
        let ghost before = self.perl_code@;
        if line.is_empty() {
            push_char(&mut self.perl_code, '>');
            self.in_cdata = true;
            assert(self.perl_code@ =~= before + seq!['>']);
            return Ok(());
        }
        push_str(&mut self.perl_code, line);
        if !p.end_cdata.is_match(line) {
            push_char(&mut self.perl_code, '>');
            self.in_cdata = true;
            assert(self.perl_code@ =~= before + line@ + seq!['>']);
            return Ok(());
        }
        match cdata_close(p, &mut self.xml_out, self.tab_mult, self.perl_code.as_str(), line) {
            Ok(t) => {
                self.tab_mult = t;
                self.perl_code = String::new();
                self.in_cdata = false;
                Ok(())
            },
            Err(f) => Err(f),
        }
    }

    /// Lays out one piece of input (the text before a `>`): the new state is
    /// the one `step_spec` gives, and the result is the warning to print, if
    /// any; `Err` where the piece cannot be laid out.
    pub fn step(&mut self, p: &Patterns, chunk: &str) -> (r: Result<Option<String>, Fault>)
        ensures
            match step_spec(p, old(self)@, chunk@) {
                Ok((s2, w)) => r matches Ok(w2) && final(self)@ == s2 && opt_view(w2) == w,
                Err(f) => r == Err::<Option<String>, Fault>(f),
            },
    {
        proof {
            reveal(step_spec);
        }
        let line = clean_line(chunk);
        if p.begin_cdata.is_match(line.as_str()) || self.in_cdata {
            match self.cdata_step(p, line.as_str()) {
                Ok(()) => Ok(None),
                Err(f) => Err(f),
            }
        } else if p.end_xml_comment_body.is_match(line.as_str()) {
            let nt = crate::handle_ncurly_perl::newline_and_tabs(self.tab_mult);
            let indented = replace(line.as_str(), "\n", nt.as_str());
            if !p.xml_comment_body.is_match(indented.as_str()) {
                return Err(Fault::NoMatch);
            }
            comments(line, &p.xml_comment_body, self.tab_mult, &mut self.xml_out);
            Ok(None)
        } else if p.xml_comment_body.is_match(line.as_str()) {
            let nt = crate::handle_ncurly_perl::newline_and_tabs(self.tab_mult);
            let indented = replace(line.as_str(), "\n", nt.as_str());
            if !p.xml_comment_body.is_match(indented.as_str()) {
                return Err(Fault::NoMatch);
            }
            body(line, &p.xml_comment_body, self.tab_mult, &mut self.xml_out);
            Ok(None)
        } else {
            self.element(p, line.as_str())
        }
    }
}


/// The output only grows: a step that succeeds keeps everything written
/// before it as the start of the new output.
pub proof fn lemma_step_extends_output(p: &Patterns, st: StateView, chunk: Seq<char>)
    ensures
        step_spec(p, st, chunk) matches Ok((s2, _)) ==> st.xml_out.is_prefix_of(s2.xml_out),
{
    reveal(step_spec);
    let line = clean_spec(chunk);
    lemma_cdata_close_extends(p, st.xml_out, st.tab_mult, st.perl_code + line, line);
    if let Ok((s2, _)) = step_spec(p, st, chunk) {
        let x = s2.xml_out;
        assert(x.len() >= st.xml_out.len());
        assert(st.xml_out =~= x.subrange(0, st.xml_out.len() as int));
    }
}

/// Between CDATA sections nothing is held back: where no section is open
/// the collected code is empty, and each step keeps it so.
pub proof fn lemma_step_keeps_buffer_empty(p: &Patterns, st: StateView, chunk: Seq<char>)
    requires
        !st.in_cdata ==> st.perl_code.len() == 0,
    ensures
        step_spec(p, st, chunk) matches Ok((s2, _)) ==> (!s2.in_cdata ==> s2.perl_code.len() == 0),
{
    reveal(step_spec);
}

/// While a CDATA section is open, a piece that does not close it (it is
/// empty, or holds no `]]`) is kept whole: the collected code becomes the
/// code so far, the cleaned piece and the `>` that ended it, and nothing is
/// written yet. So every `>` inside the section, also one right after
/// another, is put back.
pub proof fn lemma_open_cdata_collects_piece(p: &Patterns, st: StateView, chunk: Seq<char>)
    requires
        st.in_cdata,
        clean_spec(chunk).len() == 0 || !regex_is_match(p.end_cdata@, clean_spec(chunk)),
    ensures
        step_spec(p, st, chunk) == Ok::<(StateView, Option<Seq<char>>), Fault>(
            (
                StateView {
                    xml_out: st.xml_out,
                    tab_mult: st.tab_mult,
                    perl_code: st.perl_code + clean_spec(chunk) + seq!['>'],
                    in_cdata: true,
                },
                None,
            ),
        ),
{
    reveal(step_spec);
    let line = clean_spec(chunk);
    if line.len() == 0 {
        assert(st.perl_code + line =~= st.perl_code);
    }
}

/// Spaces next to `=` do not change how an element is laid out: two pieces
/// (with no text before the tag and no `<?xml` declaration) that are the
/// same once those spaces are gone give the same output, depth and warning;
/// so `<a b = "1"/` is laid out as `<a b="1"/`.
pub proof fn lemma_element_ignores_spaces_at_eq(p: &Patterns, st: StateView, line1: Seq<char>, line2: Seq<char>)
    requires
        replace_spec(replace_spec(replace_spec(line1, "\n"@, " "@), " ="@, "="@), "= "@, "="@)
            == replace_spec(replace_spec(replace_spec(line2, "\n"@, " "@), " ="@, "="@), "= "@, "="@),
        !regex_is_match(p.special_perc@, replace_spec(line1, "\n"@, " "@)),
        !regex_is_match(p.special_perc@, replace_spec(line2, "\n"@, " "@)),
        !regex_is_match(p.xml_file_version@, replace_spec(line1, "\n"@, " "@)),
        !regex_is_match(p.xml_file_version@, replace_spec(line2, "\n"@, " "@)),
    ensures
        element_spec(p, st, line1) == element_spec(p, st, line2),
{
}

/// No text before a tag is lost: where the `special_perc` pattern finds the
/// text before the tag in a piece of plain XML (line breaks made spaces),
/// the output goes on with that text, without its final `<`, indented on a
/// line of its own, before anything else of the piece.
pub proof fn lemma_element_keeps_text(p: &Patterns, st: StateView, line: Seq<char>, s: usize, e: usize)
    requires
        regex_is_match(p.special_perc@, replace_spec(line, "\n"@, " "@)),
        regex_find(p.special_perc@, replace_spec(line, "\n"@, " "@)) == Some((s, e)),
    ensures
        element_spec(p, st, line) matches Ok((s2, _)) ==> e > 0 && slice_ok(
            replace_spec(line, "\n"@, " "@),
            s as int,
            e - 1,
        ) && (st.xml_out + tabs_spec(st.tab_mult as nat) + byte_range(
            replace_spec(line, "\n"@, " "@),
            s as int,
            e - 1,
        ) + seq!['\n']).is_prefix_of(s2.xml_out),
{
    let l2 = replace_spec(line, "\n"@, " "@);
    if let Ok((s2, _)) = element_spec(p, st, line) {
        let x1 = st.xml_out + tabs_spec(st.tab_mult as nat) + byte_range(l2, s as int, e - 1) + seq!['\n'];
        assert(x1 =~= s2.xml_out.subrange(0, x1.len() as int));
    }
}

/// An attribute written `name = value` is laid out as `name=value`: for
/// text `u` and `v` without line breaks or `=`, `u` not ending and `v` not
/// starting with a space, the piece `u = v` gives the same output, depth and
/// warning as `u=v` (where neither holds text before the tag or an `<?xml`
/// declaration).
pub proof fn lemma_element_spaces_around_eq(p: &Patterns, st: StateView, u: Seq<char>, v: Seq<char>)
    requires
        !u.contains('\n'),
        !v.contains('\n'),
        !u.contains('='),
        !v.contains('='),
        u.len() == 0 || u.last() != ' ',
        v.len() == 0 || v[0] != ' ',
        !regex_is_match(p.special_perc@, u + seq![' ', '=', ' '] + v),
        !regex_is_match(p.special_perc@, u + seq!['='] + v),
        !regex_is_match(p.xml_file_version@, u + seq![' ', '=', ' '] + v),
        !regex_is_match(p.xml_file_version@, u + seq!['='] + v),
    ensures
        element_spec(p, st, u + seq![' ', '=', ' '] + v) == element_spec(p, st, u + seq!['='] + v),
{
    reveal_strlit("\n");
    reveal_strlit(" ");
    reveal_strlit(" =");
    reveal_strlit("= ");
    reveal_strlit("=");
    let nl = "\n"@;
    let sp_eq = " ="@;
    let eq_sp = "= "@;
    let eq = "="@;
    assert(nl =~= seq!['\n'] && sp_eq =~= seq![' ', '='] && eq_sp =~= seq!['=', ' '] && eq =~= seq!['=']);
    let l1 = u + seq![' ', '=', ' '] + v;
    let l2 = u + seq!['='] + v;
    // no line breaks
    assert forall|i: int| 0 <= i && i + 1 <= l1.len() implies #[trigger] l1.subrange(i, i + 1) != nl by {
        if l1.subrange(i, i + 1) == nl {
            assert(l1.subrange(i, i + 1)[0] == l1[i]);
            assert(l1[i] == '\n');
            if i < u.len() { assert(u[i] == '\n'); } else if i >= u.len() + 3 { assert(v[i - u.len() - 3] == '\n'); }
        }
    }
    lemma_replace_absent(l1, nl, " "@);
    assert forall|i: int| 0 <= i && i + 1 <= l2.len() implies #[trigger] l2.subrange(i, i + 1) != nl by {
        if l2.subrange(i, i + 1) == nl {
            assert(l2.subrange(i, i + 1)[0] == l2[i]);
            assert(l2[i] == '\n');
            if i < u.len() { assert(u[i] == '\n'); } else if i >= u.len() + 1 { assert(v[i - u.len() - 1] == '\n'); }
        }
    }
    lemma_replace_absent(l2, nl, " "@);
    // u = v: " =" once, then "= " once
    let b1 = seq![' '] + v;
    assert(l1 =~= u + sp_eq + b1);
    assert forall|i: int| 0 <= i < u.len() implies #[trigger] (u + sp_eq + b1).subrange(i, i + sp_eq.len()) != sp_eq by {
        if (u + sp_eq + b1).subrange(i, i + sp_eq.len()) == sp_eq {
            assert((u + sp_eq + b1)[i + 1] == '=');
            if i + 1 < u.len() { assert(u[i + 1] == '='); }
            else { assert(u.last() == ' '); }
        }
    }
    assert forall|i: int| 0 <= i && i + sp_eq.len() <= b1.len() implies #[trigger] b1.subrange(i, i + sp_eq.len()) != sp_eq by {
        if b1.subrange(i, i + sp_eq.len()) == sp_eq {
            assert(b1[i + 1] == '=');
            assert(v[i] == '=');
        }
    }
    lemma_replace_once(u, sp_eq, b1, eq);
    let m1 = u + eq + b1;
    assert(m1 =~= u + eq_sp + v);
    assert forall|i: int| 0 <= i < u.len() implies #[trigger] (u + eq_sp + v).subrange(i, i + eq_sp.len()) != eq_sp by {
        if (u + eq_sp + v).subrange(i, i + eq_sp.len()) == eq_sp {
            assert((u + eq_sp + v)[i] == '=');
            assert(u[i] == '=');
        }
    }
    assert forall|i: int| 0 <= i && i + eq_sp.len() <= v.len() implies #[trigger] v.subrange(i, i + eq_sp.len()) != eq_sp by {
        if v.subrange(i, i + eq_sp.len()) == eq_sp {
            assert(v[i] == '=');
        }
    }
    lemma_replace_once(u, eq_sp, v, eq);
    // u=v: neither pattern occurs
    assert forall|i: int| 0 <= i && i + 2 <= l2.len() implies #[trigger] l2.subrange(i, i + 2) != sp_eq by {
        if l2.subrange(i, i + 2) == sp_eq {
            assert(l2[i] == ' ' && l2[i + 1] == '=');
            if i + 1 < u.len() { assert(u[i + 1] == '='); }
            else if i + 1 == u.len() { assert(u.last() == ' '); }
            else if i < u.len() + 1 { assert(l2[i] == '='); }
            else { assert(v[i + 1 - u.len() - 1] == '='); }
        }
    }
    lemma_replace_absent(l2, sp_eq, eq);
    assert forall|i: int| 0 <= i && i + 2 <= l2.len() implies #[trigger] l2.subrange(i, i + 2) != eq_sp by {
        if l2.subrange(i, i + 2) == eq_sp {
            assert(l2[i] == '=' && l2[i + 1] == ' ');
            if i < u.len() { assert(u[i] == '='); }
            else if i == u.len() { assert(v[0] == ' '); }
            else { assert(v[i - u.len() - 1] == '='); }
        }
    }
    lemma_replace_absent(l2, eq_sp, eq);
    assert(u + eq + v =~= l2);
}

} // verus!
