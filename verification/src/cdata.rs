//! CDATA sections: the code between `<![CDATA[` and `]]>`, laid out by its
//! braces and statements.

use vstd::prelude::*;
use crate::formatter::{Fault, Patterns};
use crate::handle_ncurly_perl::{
    chunk3, chunk3_spec, chunk4, chunk4_spec, inline_ok, inline_spec, inline_text,
    inline_text_spec, lines_spec, multiple_lines, single_line, single_line_spec,
};
use crate::pattern::{regex_find, regex_find_iter, regex_is_match};
use crate::text::{
    byte_at, is_one, push_char, push_str, replace, replace_spec, slice, slice_spec, tabs, tabs_spec,
    utf8,
};

verus! {

/// Where the brace layout stands after some of the matches: the text laid
/// out so far, the byte offset just after the last brace or `;` taken, the
/// depth, and whether it is inside `<...>`, a `#` comment or a `$` name.
pub struct Walk {
    pub temp: Seq<char>,
    pub last: usize,
    pub tab: usize,
    pub alligator: bool,
    pub comments: bool,
    pub dolla: bool,
}

/// The brace layout at the start, at depth `tab`.
pub open spec fn walk_start(tab: usize) -> Walk {
    Walk { temp: Seq::<char>::empty(), last: 0, tab, alligator: false, comments: false, dolla: false }
}

/// An opening brace at `s..e` outside `<...>`, comments and `$` names: the
/// code since the last taken character and the brace, on a line of its own
/// unless one already starts `tab` bytes earlier; one level deeper.
pub open spec fn walk_open(text: Seq<char>, s: usize, e: usize, w: Walk) -> Result<Walk, Fault> {
    if s < w.tab + 1 {
        Err(Fault::Underflow)
    } else {
        match slice_spec(text, s - w.tab - 1, s - w.tab) {
            None => Err(Fault::BadSlice),
            Some(prev) => if e == 0 {
                Err(Fault::Underflow)
            } else {
                match slice_spec(text, w.last as int, e - 1) {
                    None => Err(Fault::BadSlice),
                    Some(p) => {
                        let temp = if prev == seq!['\n'] {
                            w.temp + p + seq!['{']
                        } else {
                            w.temp + p + seq!['\n'] + tabs_spec(w.tab as nat) + seq!['{']
                        };
                        if w.tab == usize::MAX {
                            Err(Fault::Overflow)
                        } else {
                            Ok(Walk { temp, last: e, tab: (w.tab + 1) as usize, ..w })
                        }
                    },
                }
            },
        }
    }
}

/// A `;` at `s..e`: the code since the last taken character, up to and
/// including the `;`.
pub open spec fn walk_semi(text: Seq<char>, e: usize, w: Walk) -> Result<Walk, Fault> {
    match slice_spec(text, w.last as int, e as int) {
        None => Err(Fault::BadSlice),
        Some(p) => Ok(Walk { temp: w.temp + p, last: e, ..w }),
    }
}

/// A closing brace at `s..e`: a line break, then the code after the
/// character following the last taken one, up to the brace; one level up.
pub open spec fn walk_close(text: Seq<char>, e: usize, w: Walk) -> Result<Walk, Fault> {
    if w.last == usize::MAX {
        Err(Fault::Overflow)
    } else {
        match slice_spec(text, w.last + 1, e as int) {
            None => Err(Fault::BadSlice),
            Some(p) => if w.tab == 0 {
                Err(Fault::Underflow)
            } else {
                Ok(Walk { temp: w.temp + seq!['\n'] + p, last: e, tab: (w.tab - 1) as usize, ..w })
            },
        }
    }
}

/// One match of the brace layout's pattern, at `s..e`: the one-byte text
/// `text[s..s + 1]` decides.
pub open spec fn walk_one(text: Seq<char>, m: (usize, usize), w: Walk) -> Result<Walk, Fault> {
    let (s, e) = m;
    if s == usize::MAX {
        Err(Fault::Overflow)
    } else {
        match slice_spec(text, s as int, s + 1) {
            None => Err(Fault::BadSlice),
            Some(t) => {
                let dolla = if t == seq![' '] || t == seq!['\n'] || t == seq!['\t'] || t == seq![';'] {
                    false
                } else {
                    w.dolla
                };
                let w1 = Walk { dolla, ..w };
                if t == seq!['\n'] {
                    Ok(Walk { comments: false, ..w1 })
                } else if t == seq!['<'] {
                    Ok(Walk { alligator: true, ..w1 })
                } else if t == seq!['>'] {
                    Ok(Walk { alligator: false, ..w1 })
                } else if t == seq!['#'] {
                    Ok(Walk { comments: true, ..w1 })
                } else if t == seq!['$'] {
                    Ok(Walk { dolla: true, ..w1 })
                } else if w1.comments || w1.alligator || w1.dolla {
                    Ok(w1)
                } else if t == seq!['{'] {
                    walk_open(text, s, e, w1)
                } else if t == seq![';'] {
                    walk_semi(text, e, w1)
                } else if t == seq!['}'] {
                    walk_close(text, e, w1)
                } else {
                    Ok(w1)
                }
            },
        }
    }
}

/// The brace layout after the first `k` matches.
pub open spec fn walk_spec(text: Seq<char>, ms: Seq<(usize, usize)>, k: nat, init: Walk) -> Result<Walk, Fault>
    decreases k,
{
    if k == 0 {
        Ok(init)
    } else {
        match walk_spec(text, ms, (k - 1) as nat, init) {
            Ok(w) => walk_one(text, ms[k - 1], w),
            Err(f) => Err(f),
        }
    }
}

proof fn lemma_walk_err_stays(text: Seq<char>, ms: Seq<(usize, usize)>, k: nat, n: nat, init: Walk)
    requires
        k <= n,
        walk_spec(text, ms, k, init) is Err,
    ensures
        walk_spec(text, ms, n, init) == walk_spec(text, ms, k, init),
    decreases n - k,
{
    if k < n {
        lemma_walk_err_stays(text, ms, k, (n - 1) as nat, init);
    }
}

/// The brace layout's running state.
struct WalkState {
    temp: String,
    last: usize,
    tab: usize,
    alligator: bool,
    comments: bool,
    dolla: bool,
}

impl View for WalkState {
    type V = Walk;

    closed spec fn view(&self) -> Walk {
        Walk {
            temp: self.temp@,
            last: self.last,
            tab: self.tab,
            alligator: self.alligator,
            comments: self.comments,
            dolla: self.dolla,
        }
    }
}

/// An opening brace; see `walk_open`.
fn walk_open_exec(text: &str, s: usize, e: usize, w: &mut WalkState) -> (r: Result<(), Fault>)
    ensures
        match walk_open(text@, s, e, old(w)@) {
            Ok(w2) => r is Ok && final(w)@ == w2,
            Err(f) => r == Err::<(), Fault>(f),
        },
{
    if s < w.tab || s - w.tab == 0 {
        return Err(Fault::Underflow);
    }
    let prev = match slice(text, s - w.tab - 1, s - w.tab) {
        Some(p) => p,
        None => return Err(Fault::BadSlice),
    };
    if e == 0 {
        return Err(Fault::Underflow);
    }
    let piece = match slice(text, w.last, e - 1) {
        Some(p) => p,
        None => return Err(Fault::BadSlice),
    };
    let ghost before = w.temp@;
    if is_one(prev.as_str(), '\n') {
        push_str(&mut w.temp, piece.as_str());
        push_char(&mut w.temp, '{');
        assert(w.temp@ =~= before + piece@ + seq!['{']);
    } else {
        push_str(&mut w.temp, piece.as_str());
        push_char(&mut w.temp, '\n');
        let t = tabs(w.tab);
        push_str(&mut w.temp, t.as_str());
        push_char(&mut w.temp, '{');
        assert(w.temp@ =~= before + piece@ + seq!['\n'] + tabs_spec(w.tab as nat) + seq!['{']);
    }
    if w.tab == usize::MAX {
        return Err(Fault::Overflow);
    }
    w.last = e;
    w.tab = w.tab + 1;
    Ok(())
}

/// One match of the brace layout's pattern; see `walk_one`.
fn walk_one_exec(text: &str, s: usize, e: usize, w: &mut WalkState) -> (r: Result<(), Fault>)
    ensures
        match walk_one(text@, (s, e), old(w)@) {
            Ok(w2) => r is Ok && final(w)@ == w2,
            Err(f) => r == Err::<(), Fault>(f),
        },
{
    if s == usize::MAX {
        return Err(Fault::Overflow);
    }
    let t = match slice(text, s, s + 1) {
        Some(t) => t,
        None => return Err(Fault::BadSlice),
    };
    let t = t.as_str();
    if is_one(t, ' ') || is_one(t, '\n') || is_one(t, '\t') || is_one(t, ';') {
        w.dolla = false;
    }
    if is_one(t, '\n') {
        w.comments = false;
    } else if is_one(t, '<') {
        w.alligator = true;
    } else if is_one(t, '>') {
        w.alligator = false;
    } else if is_one(t, '#') {
        w.comments = true;
    } else if is_one(t, '$') {
        w.dolla = true;
    } else if !(w.comments || w.alligator || w.dolla) {
        if is_one(t, '{') {
            return walk_open_exec(text, s, e, w);
        } else if is_one(t, ';') {
            match slice(text, w.last, e) {
                Some(p) => {
                    push_str(&mut w.temp, p.as_str());
                    w.last = e;
                },
                None => return Err(Fault::BadSlice),
            }
        } else if is_one(t, '}') {
            if w.last == usize::MAX {
                return Err(Fault::Overflow);
            }
            match slice(text, w.last + 1, e) {
                Some(p) => {
                    let ghost before = w.temp@;
                    push_char(&mut w.temp, '\n');
                    push_str(&mut w.temp, p.as_str());
                    assert(w.temp@ =~= before + seq!['\n'] + p@);
                },
                None => return Err(Fault::BadSlice),
            }
            if w.tab == 0 {
                return Err(Fault::Underflow);
            }
            w.tab = w.tab - 1;
            w.last = e;
        }
    }
    Ok(())
}

/// Given the matches `ms` (byte spans) of the brace layout's pattern in
/// `text`, the brace layout over all of them from depth `tab`: the text laid
/// out and the final depth.
pub fn walk(text: &str, ms: &Vec<(usize, usize)>, tab: usize) -> (r: Result<(String, usize), Fault>)
    ensures
        match walk_spec(text@, ms@, ms@.len(), walk_start(tab)) {
            Ok(w) => r matches Ok((t, d)) && t@ == w.temp && d == w.tab,
            Err(f) => r == Err::<(String, usize), Fault>(f),
        },
{
    let mut w = WalkState { temp: String::new(), last: 0, tab, alligator: false, comments: false, dolla: false };
    assert(w@ == walk_start(tab));
    let mut i: usize = 0;
    while i < ms.len()
        invariant
            i <= ms@.len(),
            walk_spec(text@, ms@, i as nat, walk_start(tab)) == Ok::<Walk, Fault>(w@),
        decreases ms.len() - i,
    {
        let (s, e) = ms[i];
        match walk_one_exec(text, s, e, &mut w) {
            Ok(()) => {},
            Err(f) => {
                proof {
                    lemma_walk_err_stays(text@, ms@, (i + 1) as nat, ms@.len(), walk_start(tab));
                }
                return Err(f);
            },
        }
        i = i + 1;
    }
    Ok((w.temp, w.tab))
}


/// A CDATA section whose code has a `;`, at depth `tab`: the code is
/// re-indented one level deeper, laid out by its braces (or, without
/// braces, one statement per line), and appended to `xml` one level up from
/// where the layout ended. Gives the new output and depth.
pub open spec fn semicolon_spec(p: &Patterns, xml: Seq<char>, tab: usize, code: Seq<char>) -> Result<(Seq<char>, usize), Fault> {
    if tab == usize::MAX {
        Err(Fault::Overflow)
    } else {
        let t1 = (tab + 1) as usize;
        let c = inline_text_spec(code, t1 as nat, p.tab_nl@);
        let walked: Result<(Seq<char>, usize), Fault> = if regex_is_match(p.curly@, c) {
            let ms = regex_find_iter(p.curly_semi_alligator_newl_comm_dolla@, c);
            match walk_spec(c, ms, ms.len(), walk_start(t1)) {
                Ok(w) => Ok((w.temp, w.tab)),
                Err(f) => Err(f),
            }
        } else {
            Ok((lines_spec(Seq::<char>::empty(), c, t1 as nat), t1))
        };
        match walked {
            Err(f) => Err(f),
            Ok((temp, t2)) => close_block_spec(xml, temp, t2),
        }
    }
}

/// The laid-out code `temp`, whose layout ended at depth `depth`, appended
/// to `xml` one level up: with a line break after it unless the byte
/// `depth` from its end is one. Gives the new output and depth.
pub open spec fn close_block_spec(xml: Seq<char>, temp: Seq<char>, depth: usize) -> Result<(Seq<char>, usize), Fault> {
    if depth == 0 {
        Err(Fault::Underflow)
    } else {
        let t3 = (depth - 1) as usize;
        let bytes = utf8(temp);
        if bytes.len() < t3 + 1 {
            Err(Fault::Underflow)
        } else if bytes[bytes.len() - 1 - t3] == 10u8 {
            Ok((chunk3_spec(xml, t3 as nat, temp), t3))
        } else {
            Ok((chunk4_spec(xml, t3 as nat, temp), t3))
        }
    }
}

/// The code between the end of `<![CDATA[` (`open_end`) and the start of
/// `]]` (`close_start`), byte offsets into `perl`, without the space after
/// each line break.
pub open spec fn cdata_code_spec(perl: Seq<char>, open_end: usize, close_start: usize) -> Result<Seq<char>, Fault> {
    match slice_spec(perl, open_end as int, close_start as int) {
        None => Err(Fault::BadSlice),
        Some(inner) => Ok(replace_spec(inner, "\n "@, "\n"@)),
    }
}

/// Why `inline` would panic on this code at depth `tab`.
pub open spec fn inline_fault(p: &Patterns, tab: usize, code: Seq<char>) -> Fault {
    if tab == 0 {
        Fault::Underflow
    } else if utf8(inline_text_spec(code, tab as nat, p.tab_nl@)).len() == 0 {
        Fault::ByteIndex
    } else {
        Fault::Underflow
    }
}

/// A CDATA section closed in `line`, with `perl` all of it collected: the
/// code between `<![CDATA[` and `]]>`, without the space after each line
/// break, is laid out by `semicolon_spec`, as a one-line section, or as an
/// inline section. Gives the new output and depth.
pub open spec fn cdata_close_spec(p: &Patterns, xml: Seq<char>, tab: usize, perl: Seq<char>, line: Seq<char>) -> Result<(Seq<char>, usize), Fault> {
    match regex_find(p.begin_cdata@, perl) {
        None => Err(Fault::NoMatch),
        Some((_, open_end)) => match regex_find(p.end_cdata@, perl) {
            None => Err(Fault::NoMatch),
            Some((close_start, _)) => match cdata_code_spec(perl, open_end, close_start) {
                Err(f) => Err(f),
                Ok(code) => {
                    if regex_is_match(p.semicolon@, code) {
                        semicolon_spec(p, xml, tab, code)
                    } else if regex_is_match(p.one_line_cdata@, line) {
                        Ok((single_line_spec(xml, tab as nat, code), tab))
                    } else if inline_ok(code, tab as nat, p.tab_nl@) {
                        Ok((inline_spec(xml, tab as nat, code, p.tab_nl@), tab))
                    } else {
                        Err(inline_fault(p, tab, code))
                    }
                },
            },
        },
    }
}

/// See `semicolon_spec`.
pub(crate) fn semicolon_block(p: &Patterns, xml: &mut String, tab: usize, code: &str) -> (r: Result<usize, Fault>)
    ensures
        match semicolon_spec(p, old(xml)@, tab, code@) {
            Ok((x, t)) => r == Ok::<usize, Fault>(t) && final(xml)@ == x,
            Err(f) => r == Err::<usize, Fault>(f),
        },
{
    if tab == usize::MAX {
        return Err(Fault::Overflow);
    }
    let t1 = tab + 1;
    let c = inline_text(code, t1, &p.tab_nl);
    let (temp, t2) = if p.curly.is_match(c.as_str()) {
        let ms = p.curly_semi_alligator_newl_comm_dolla.find_iter(c.as_str());
        match walk(c.as_str(), &ms, t1) {
            Ok(res) => res,
            Err(f) => return Err(f),
        }
    } else {
        let mut temp = String::new();
        multiple_lines(&c, &mut temp, t1);
        (temp, t1)
    };
    close_block(xml, &temp, t2)
}

/// Appends the laid-out code `temp` one level up from `depth`; see
/// `close_block_spec`.
pub fn close_block(xml: &mut String, temp: &String, depth: usize) -> (r: Result<usize, Fault>)
    ensures
        match close_block_spec(old(xml)@, temp@, depth) {
            Ok((x, t)) => r == Ok::<usize, Fault>(t) && final(xml)@ == x,
            Err(f) => r == Err::<usize, Fault>(f),
        },
{
    if depth == 0 {
        return Err(Fault::Underflow);
    }
    let t3 = depth - 1;
    let n = temp.as_str().as_bytes().len();
    if n < t3 + 1 {
        return Err(Fault::Underflow);
    }
    if byte_at(temp.as_str(), n - 1 - t3) == 10u8 {
        chunk3(xml, t3, temp);
    } else {
        chunk4(xml, t3, temp);
    }
    Ok(t3)
}

/// Given where `<![CDATA[` ends and `]]` starts in `perl`, the code between
/// them; see `cdata_code_spec`.
pub fn cdata_code(perl: &str, open_end: usize, close_start: usize) -> (r: Result<String, Fault>)
    ensures
        match cdata_code_spec(perl@, open_end, close_start) {
            Ok(c) => r matches Ok(s) && s@ == c,
            Err(f) => r == Err::<String, Fault>(f),
        },
{
    match slice(perl, open_end, close_start) {
        Some(inner) => Ok(replace(inner.as_str(), "\n ", "\n")),
        None => Err(Fault::BadSlice),
    }
}

/// See `cdata_close_spec`.
pub(crate) fn cdata_close(p: &Patterns, xml: &mut String, tab: usize, perl: &str, line: &str) -> (r: Result<usize, Fault>)
    ensures
        match cdata_close_spec(p, old(xml)@, tab, perl@, line@) {
            Ok((x, t)) => r == Ok::<usize, Fault>(t) && final(xml)@ == x,
            Err(f) => r == Err::<usize, Fault>(f),
        },
{
    let open_end = match p.begin_cdata.find(perl) {
        Some((_, e)) => e,
        None => return Err(Fault::NoMatch),
    };
    let close_start = match p.end_cdata.find(perl) {
        Some((s, _)) => s,
        None => return Err(Fault::NoMatch),
    };
    let code = match cdata_code(perl, open_end, close_start) {
        Ok(c) => c,
        Err(f) => return Err(f),
    };
    if p.semicolon.is_match(code.as_str()) {
        semicolon_block(p, xml, tab, code.as_str())
    } else if p.one_line_cdata.is_match(line) {
        single_line(xml, tab, &code);
        Ok(tab)
    } else {
        if tab == 0 {
            return Err(Fault::Underflow);
        }
        let t = inline_text(code.as_str(), tab, &p.tab_nl);
        let n = t.as_str().as_bytes().len();
        if n == 0 {
            return Err(Fault::ByteIndex);
        }
        if n - 1 < tab {
            return Err(Fault::Underflow);
        }
        crate::handle_ncurly_perl::inline(xml, tab, &code, &p.tab_nl);
        Ok(tab)
    }
}


proof fn lemma_semicolon_extends(p: &Patterns, xml: Seq<char>, tab: usize, code: Seq<char>)
    ensures
        semicolon_spec(p, xml, tab, code) matches Ok((x, _)) ==> xml.is_prefix_of(x),
{
    if let Ok((x, _)) = semicolon_spec(p, xml, tab, code) {
        assert(xml =~= x.subrange(0, xml.len() as int));
    }
}

pub(crate) proof fn lemma_cdata_close_extends(p: &Patterns, xml: Seq<char>, tab: usize, perl: Seq<char>, line: Seq<char>)
    ensures
        cdata_close_spec(p, xml, tab, perl, line) matches Ok((x, _)) ==> xml.is_prefix_of(x),
{
    if let Some((_, oe)) = regex_find(p.begin_cdata@, perl) {
        if let Some((cs, _)) = regex_find(p.end_cdata@, perl) {
            if let Some(inner) = slice_spec(perl, oe as int, cs as int) {
                let code = replace_spec(inner, "\n "@, "\n"@);
                lemma_semicolon_extends(p, xml, tab, code);
                if let Ok((x, _)) = cdata_close_spec(p, xml, tab, perl, line) {
                    assert(xml =~= x.subrange(0, xml.len() as int));
                }
            }
        }
    }
}


/// Braces in a `$` name are not blocks: in the brace layout, a `$`
/// followed by a `{` or `}` (with no space, tab, line break or `;` between,
/// so the next match is the brace) leaves the laid-out text, the depth and
/// the position of the last taken character as they were.
pub proof fn lemma_dollar_brace_is_no_block(text: Seq<char>, m1: (usize, usize), m2: (usize, usize), w: Walk)
    requires
        m1.0 < usize::MAX,
        m2.0 < usize::MAX,
        slice_spec(text, m1.0 as int, m1.0 + 1) == Some(seq!['$']),
        slice_spec(text, m2.0 as int, m2.0 + 1) == Some(seq!['{'])
            || slice_spec(text, m2.0 as int, m2.0 + 1) == Some(seq!['}']),
    ensures
        walk_one(text, m1, w) matches Ok(w2) && walk_one(text, m2, w2) matches Ok(w3) && w3.temp
            == w.temp && w3.tab == w.tab && w3.last == w.last,
{
    let t2 = slice_spec(text, m2.0 as int, m2.0 + 1)->0;
    let c2 = t2[0];
    assert(t2 == seq![c2]) by {
        if t2 == seq!['{'] {
            assert(seq!['{'][0] == '{');
        } else {
            assert(seq!['}'][0] == '}');
        }
    }
    assert(c2 == '{' || c2 == '}');
    let others = seq![' ', '\n', '\t', ';', '<', '>', '#', '$'];
    assert forall|k: int| 0 <= k < others.len() - 1 implies seq!['$'] != seq![others[k]] by {
        lemma_one_char_differs('$', others[k]);
    }
    assert forall|k: int| 0 <= k < others.len() implies seq![c2] != seq![others[k]] by {
        lemma_one_char_differs(c2, others[k]);
    }
    assert(seq!['$'] != seq![' '] && seq!['$'] != seq!['\n'] && seq!['$'] != seq!['\t'] && seq!['$'] != seq![';']) by {
        assert(others[0] == ' ' && others[1] == '\n' && others[2] == '\t' && others[3] == ';');
    }
    assert(seq!['$'] != seq!['<'] && seq!['$'] != seq!['>'] && seq!['$'] != seq!['#']) by {
        assert(others[4] == '<' && others[5] == '>' && others[6] == '#');
    }
    assert(t2 != seq![' '] && t2 != seq!['\n'] && t2 != seq!['\t'] && t2 != seq![';']) by {
        assert(others[0] == ' ' && others[1] == '\n' && others[2] == '\t' && others[3] == ';');
    }
    assert(t2 != seq!['<'] && t2 != seq!['>'] && t2 != seq!['#'] && t2 != seq!['$']) by {
        assert(others[4] == '<' && others[5] == '>' && others[6] == '#' && others[7] == '$');
    }
}

proof fn lemma_one_char_differs(a: char, b: char)
    ensures
        a != b ==> seq![a] != seq![b],
{
    if a != b {
        assert(seq![a][0] != seq![b][0]);
    }

}

} // verus!
