//! Elements: a tag's name, its attributes one per line, and its end.

use vstd::prelude::*;
use crate::formatter::{Fault, Patterns, opt_view};
use crate::pattern::{Pattern, regex_find, regex_is_match};
use crate::text::{
    pop_char, pop_spec, push_char, push_str, replace, replace_spec, slice, slice_spec, split_char,
    split_spec, tabs, tabs_spec,
};

verus! {

/// One piece of a run of attributes, cut at its `"` characters, given
/// whether it is a name with its `=` (`is_decl`), whether it is a quoted
/// value (`is_quoted`), and the value with its white space runs made single
/// spaces (`spaced`): a name starts an indented line (its spaces removed), a
/// value is written in quotes and ends the line, an empty value after a
/// name is written `""`, and any other piece takes back the last character
/// written. Gives the text and whether the piece was a name.
pub open spec fn attr_piece_spec(tab: usize, acc: (Seq<char>, bool), piece: Seq<char>, is_decl: bool, is_quoted: bool, spaced: Seq<char>) -> (Seq<char>, bool) {
    if is_decl {
        (acc.0 + tabs_spec(tab as nat) + replace_spec(piece, " "@, ""@), true)
    } else if is_quoted {
        (acc.0 + seq!['"'] + spaced + seq!['"', '\n'], false)
    } else if piece.len() == 0 && acc.1 {
        (acc.0 + seq!['"', '"', '\n'], acc.1)
    } else {
        (pop_spec(acc.0), acc.1)
    }
}

/// One piece of a run of attributes, as the formatter's patterns classify
/// it; see `attr_piece_spec`.
pub open spec fn attr_one(p: &Patterns, tab: usize, acc: (Seq<char>, bool), piece: Seq<char>) -> (Seq<char>, bool) {
    attr_piece_spec(
        tab,
        acc,
        piece,
        regex_is_match(p.in_declaration@, piece),
        regex_is_match(p.in_quotes@, piece),
        crate::pattern::regex_replace_all(p.rm_ws@, piece, " "@),
    )
}

/// Lays out one piece of a run of attributes after `out`, given how the
/// patterns classify it; `dec` tells whether the last piece was a name.
/// Returns whether this piece is taken as a name; see `attr_piece_spec`.
pub fn attr_piece(out: &mut String, dec: bool, tab: usize, piece: &str, is_decl: bool, is_quoted: bool, spaced: &str) -> (r: bool)
    ensures
        (final(out)@, r) == attr_piece_spec(tab, (old(out)@, dec), piece@, is_decl, is_quoted, spaced@),
{
    let ghost before = out@;
    if is_decl {
        let t = tabs(tab);
        let squeezed = replace(piece, " ", "");
        push_str(out, t.as_str());
        push_str(out, squeezed.as_str());
        true
    } else if is_quoted {
        push_char(out, '"');
        push_str(out, spaced);
        push_char(out, '"');
        push_char(out, '\n');
        assert(out@ =~= before + seq!['"'] + spaced@ + seq!['"', '\n']);
        false
    } else if piece.is_empty() && dec {
        push_char(out, '"');
        push_char(out, '"');
        push_char(out, '\n');
        assert(out@ =~= before + seq!['"', '"', '\n']);
        dec
    } else {
        pop_char(out);
        dec
    }
}

/// The attribute layout after the first `k` pieces: the text and whether
/// the last piece taken was a name.
pub open spec fn attrs_spec(p: &Patterns, tab: usize, pieces: Seq<Seq<char>>, k: nat) -> (Seq<char>, bool)
    decreases k,
{
    if k == 0 {
        (Seq::<char>::empty(), false)
    } else {
        attr_one(p, tab, attrs_spec(p, tab, pieces, (k - 1) as nat), pieces[k - 1])
    }
}

/// Lays out a run of attributes, one per line, at depth `tab`.
pub(crate) fn attrs(p: &Patterns, tab: usize, run: &str) -> (r: String)
    ensures
        r@ == attrs_spec(p, tab, split_spec(run@, '"'), split_spec(run@, '"').len()).0,
{
    let pieces = split_char(run, '"');
    let ghost ps = split_spec(run@, '"');
    let mut out = String::new();
    let mut dec = false;
    let mut i: usize = 0;
    while i < pieces.len()
        invariant
            i <= pieces@.len(),
            pieces@.len() == ps.len(),
            forall|k: int| 0 <= k < pieces@.len() ==> #[trigger] pieces@[k]@ == ps[k],
            attrs_spec(p, tab, ps, i as nat) == (out@, dec),
        decreases pieces.len() - i,
    {
        let piece = pieces[i].as_str();
        assert(piece@ == ps[i as int]);
        let is_decl = p.in_declaration.is_match(piece);
        let is_quoted = if is_decl { false } else { p.in_quotes.is_match(piece) };
        if is_quoted {
            let spaced = p.rm_ws.replace_all(piece, " ");
            dec = attr_piece(&mut out, dec, tab, piece, is_decl, is_quoted, spaced.as_str());
        } else {
            dec = attr_piece(&mut out, dec, tab, piece, is_decl, is_quoted, "");
        }
        i = i + 1;
    }
    out
}

/// The text between the tag start and the `<` that ends it, indented, on
/// a line of its own, after `xml`; `xml` unchanged where there is none.
pub open spec fn special_spec(p: &Patterns, xml: Seq<char>, tab: usize, l2: Seq<char>) -> Result<Seq<char>, Fault> {
    if regex_is_match(p.special_perc@, l2) {
        special_layout_spec(xml, tab, l2, regex_find(p.special_perc@, l2))
    } else {
        Ok(xml)
    }
}

/// Given where the text before a tag was found in `l2` (a byte span ending
/// just after the `<`), that text without the `<`, indented, on a line of
/// its own, after `xml`.
pub open spec fn special_layout_spec(xml: Seq<char>, tab: usize, l2: Seq<char>, found: Option<(usize, usize)>) -> Result<Seq<char>, Fault> {
    match found {
        None => Err(Fault::NoMatch),
        Some((s, e)) => if e == 0 {
            Err(Fault::Underflow)
        } else {
            match slice_spec(l2, s as int, e - 1) {
                None => Err(Fault::BadSlice),
                Some(t) => Ok(xml + tabs_spec(tab as nat) + t + seq!['\n']),
            }
        },
    }
}

/// The text that `pattern` finds in `l`, or why finding it fails.
pub open spec fn found_spec(pattern: Seq<char>, l: Seq<char>) -> Result<Seq<char>, Fault> {
    match regex_find(pattern, l) {
        None => Err(Fault::NoMatch),
        Some((s, e)) => match slice_spec(l, s as int, e as int) {
            None => Err(Fault::BadSlice),
            Some(t) => Ok(t),
        },
    }
}

/// The lines written for an element piece `l3` at depth `tab`: its tag name
/// (one level deeper after it), its attributes, and its end: `/>` one level
/// up for a self-closing tag, the closing tag then one level up, or `>`.
/// Gives the text, the new depth and the warning printed where the depth
/// would go below zero.
pub open spec fn element_lines_spec(p: &Patterns, tab: usize, l3: Seq<char>) -> Result<(Seq<char>, usize, Option<Seq<char>>), Fault> {
    let head: Result<(Seq<char>, usize), Fault> = if regex_is_match(p.head_string@, l3) {
        match found_spec(p.head_string@, l3) {
            Err(f) => Err(f),
            Ok(h) => if tab == usize::MAX {
                Err(Fault::Overflow)
            } else {
                Ok((tabs_spec(tab as nat) + h + seq!['\n'], (tab + 1) as usize))
            },
        }
    } else {
        Ok((Seq::<char>::empty(), tab))
    };
    match head {
        Err(f) => Err(f),
        Ok((pc1, t1)) => {
            let with_attrs: Result<Seq<char>, Fault> = if regex_is_match(p.bod_strings@, l3) {
                match found_spec(p.bod_strings@, l3) {
                    Err(f) => Err(f),
                    Ok(run) => {
                        let ps = split_spec(run, '"');
                        Ok(pc1 + attrs_spec(p, t1, ps, ps.len()).0 + seq!['\n'])
                    },
                }
            } else {
                Ok(pc1)
            };
            match with_attrs {
                Err(f) => Err(f),
                Ok(pc2) => if regex_is_match(p.end_slash@, l3) {
                    Ok(element_end_spec(pc2, t1, l3, true, None))
                } else if regex_is_match(p.foot_slash@, l3) {
                    match found_spec(p.foot_slash@, l3) {
                        Err(f) => Err(f),
                        Ok(foot) => Ok(element_end_spec(pc2, t1, l3, false, Some(foot))),
                    }
                } else {
                    Ok(element_end_spec(pc2, t1, l3, false, None))
                },
            }
        },
    }
}

/// The end of an element's lines `pc`, at depth `tab`, given whether the
/// piece `l3` is a self-closing tag (`slash`) and the closing tag found in
/// it, if any: `/>` one level up, the closing tag then one level up, or `>`
/// where anything was written. Gives the text, the new depth and the
/// warning printed where the depth would go below zero.
pub open spec fn element_end_spec(pc: Seq<char>, tab: usize, l3: Seq<char>, slash: bool, foot: Option<Seq<char>>) -> (Seq<char>, usize, Option<Seq<char>>) {
    let up = if tab > 0 { (tab - 1) as usize } else { tab };
    if slash {
        let w = if tab > 0 { None } else { Some("tab mult issue: "@ + l3) };
        (pc + tabs_spec(up as nat) + "/>\n"@, up, w)
    } else if foot is Some {
        let w = if tab > 0 { None } else { Some("tab mult issue"@) };
        (pc + tabs_spec(tab as nat) + foot->0 + ">\n"@, up, w)
    } else if pc.len() != 0 {
        (pc + tabs_spec(tab as nat) + ">\n"@, tab, None)
    } else {
        (pc, tab, None)
    }
}

/// See `found_spec`.
pub(crate) fn found(pattern: &Pattern, l: &str) -> (r: Result<String, Fault>)
    ensures
        match found_spec(pattern@, l@) {
            Ok(t) => r matches Ok(s) && s@ == t,
            Err(f) => r == Err::<String, Fault>(f),
        },
{
    match pattern.find(l) {
        None => Err(Fault::NoMatch),
        Some((s, e)) => match slice(l, s, e) {
            None => Err(Fault::BadSlice),
            Some(t) => Ok(t),
        },
    }
}

/// See `special_spec`: appends to `xml`.
pub(crate) fn special(p: &Patterns, xml: &mut String, tab: usize, l2: &str) -> (r: Result<(), Fault>)
    ensures
        match special_spec(p, old(xml)@, tab, l2@) {
            Ok(x) => r is Ok && final(xml)@ == x,
            Err(f) => r == Err::<(), Fault>(f),
        },
{
    if p.special_perc.is_match(l2) {
        let found = p.special_perc.find(l2);
        special_layout(xml, tab, l2, found)
    } else {
        Ok(())
    }
}

/// Given where the text before a tag was found in `l2`, appends it to
/// `xml`; see `special_layout_spec`.
pub fn special_layout(xml: &mut String, tab: usize, l2: &str, found: Option<(usize, usize)>) -> (r: Result<(), Fault>)
    ensures
        match special_layout_spec(old(xml)@, tab, l2@, found) {
            Ok(x) => r is Ok && final(xml)@ == x,
            Err(f) => r == Err::<(), Fault>(f),
        },
{
    match found {
        None => Err(Fault::NoMatch),
        Some((s, e)) => {
            if e == 0 {
                return Err(Fault::Underflow);
            }
            match slice(l2, s, e - 1) {
                None => Err(Fault::BadSlice),
                Some(t) => {
                    let tb = tabs(tab);
                    push_str(xml, tb.as_str());
                    push_str(xml, t.as_str());
                    push_char(xml, '\n');
                    Ok(())
                },
            }
        },
    }
}

/// See `element_lines_spec`.
pub(crate) fn element_lines(p: &Patterns, tab: usize, l3: &str) -> (r: Result<(String, usize, Option<String>), Fault>)
    ensures
        match element_lines_spec(p, tab, l3@) {
            Ok((t, d, w)) => r matches Ok((t2, d2, w2)) && t2@ == t && d2 == d && opt_view(w2) == w,
            Err(f) => r == Err::<(String, usize, Option<String>), Fault>(f),
        },
{
    let mut pieces = String::new();
    let mut t1 = tab;
    if p.head_string.is_match(l3) {
        let h = match found(&p.head_string, l3) {
            Ok(h) => h,
            Err(f) => return Err(f),
        };
        if tab == usize::MAX {
            return Err(Fault::Overflow);
        }
        let tb = tabs(tab);
        push_str(&mut pieces, tb.as_str());
        push_str(&mut pieces, h.as_str());
        push_char(&mut pieces, '\n');
        t1 = tab + 1;
    }
    if p.bod_strings.is_match(l3) {
        let run = match found(&p.bod_strings, l3) {
            Ok(b) => b,
            Err(f) => return Err(f),
        };
        let a = attrs(p, t1, run.as_str());
        push_str(&mut pieces, a.as_str());
        push_char(&mut pieces, '\n');
    }
    if p.end_slash.is_match(l3) {
        Ok(element_end(pieces, t1, l3, true, None))
    } else if p.foot_slash.is_match(l3) {
        let foot = match found(&p.foot_slash, l3) {
            Ok(f) => f,
            Err(f) => return Err(f),
        };
        Ok(element_end(pieces, t1, l3, false, Some(foot)))
    } else {
        Ok(element_end(pieces, t1, l3, false, None))
    }
}

/// Ends an element's lines, given whether it is self-closing and its
/// closing tag, if any; see `element_end_spec`.
pub fn element_end(pieces: String, tab: usize, l3: &str, slash: bool, foot: Option<String>) -> (r: (String, usize, Option<String>))
    ensures
        ({
            let (t, d, w) = element_end_spec(pieces@, tab, l3@, slash, opt_view(foot));
            r.0@ == t && r.1 == d && opt_view(r.2) == w
        }),
{
    let mut pieces = pieces;
    let mut up = tab;
    let mut warning = None;
    if slash || foot.is_some() {
        if tab > 0 {
            up = tab - 1;
        } else {
            let mut w = String::new();
            if slash {
                push_str(&mut w, "tab mult issue: ");
                push_str(&mut w, l3);
            } else {
                push_str(&mut w, "tab mult issue");
            }
            warning = Some(w);
        }
    }
    if slash {
        let tb = tabs(up);
        push_str(&mut pieces, tb.as_str());
        push_str(&mut pieces, "/>\n");
        (pieces, up, warning)
    } else {
        match foot {
            Some(f) => {
                let tb = tabs(tab);
                push_str(&mut pieces, tb.as_str());
                push_str(&mut pieces, f.as_str());
                push_str(&mut pieces, ">\n");
                (pieces, up, warning)
            },
            None => {
                if !pieces.as_str().is_empty() {
                    let tb = tabs(tab);
                    push_str(&mut pieces, tb.as_str());
                    push_str(&mut pieces, ">\n");
                }
                (pieces, tab, None)
            },
        }
    }
}

/// Ending an element goes one level up exactly when it is self-closing or
/// has its closing tag (and the depth is above zero; at zero it stays and a
/// warning is given); otherwise the depth is kept and nothing is warned.
pub proof fn lemma_element_end_depth(pc: Seq<char>, tab: usize, l3: Seq<char>, slash: bool, foot: Option<Seq<char>>)
    ensures
        ({
            let (_, d, w) = element_end_spec(pc, tab, l3, slash, foot);
            if slash || foot is Some {
                &&& (tab > 0 ==> d == tab - 1 && w is None)
                &&& (tab == 0 ==> d == 0 && w is Some)
            } else {
                d == tab && w is None
            }
        }),
{
}

/// The depth after an element piece: one deeper for its opening tag, then
/// one up if it is self-closing or closes an element (not below zero, with
/// a warning there).
pub proof fn lemma_element_lines_depth(p: &Patterns, tab: usize, l3: Seq<char>)
    ensures
        element_lines_spec(p, tab, l3) matches Ok((_, d, w)) ==> {
            let t1: int = if regex_is_match(p.head_string@, l3) { tab + 1 } else { tab as int };
            let ends = regex_is_match(p.end_slash@, l3) || regex_is_match(p.foot_slash@, l3);
            if ends {
                &&& (t1 > 0 ==> d == t1 - 1 && w is None)
                &&& (t1 == 0 ==> d == 0 && w is Some)
            } else {
                d == t1 && w is None
            }
        },
{
    if let Ok((_, d, w)) = element_lines_spec(p, tab, l3) {
        let head: Result<(Seq<char>, usize), Fault> = if regex_is_match(p.head_string@, l3) {
            match found_spec(p.head_string@, l3) {
                Err(f) => Err(f),
                Ok(h) => if tab == usize::MAX {
                    Err(Fault::Overflow)
                } else {
                    Ok((tabs_spec(tab as nat) + h + seq!['\n'], (tab + 1) as usize))
                },
            }
        } else {
            Ok((Seq::<char>::empty(), tab))
        };
        if let Ok((pc1, t1)) = head {
            let with_attrs: Result<Seq<char>, Fault> = if regex_is_match(p.bod_strings@, l3) {
                match found_spec(p.bod_strings@, l3) {
                    Err(f) => Err(f),
                    Ok(run) => {
                        let ps = split_spec(run, '"');
                        Ok(pc1 + attrs_spec(p, t1, ps, ps.len()).0 + seq!['\n'])
                    },
                }
            } else {
                Ok(pc1)
            };
            if let Ok(pc2) = with_attrs {
                if regex_is_match(p.end_slash@, l3) {
                    lemma_element_end_depth(pc2, t1, l3, true, None);
                } else if regex_is_match(p.foot_slash@, l3) {
                    if let Ok(foot) = found_spec(p.foot_slash@, l3) {
                        lemma_element_end_depth(pc2, t1, l3, false, Some(foot));
                    }
                } else {
                    lemma_element_end_depth(pc2, t1, l3, false, None);
                }
            }
        }
    }
}

/// An element opened in one piece and closed in a later one (with only the
/// closing tag in it) comes back to the depth it started at.
pub proof fn lemma_open_close_balance(p: &Patterns, tab: usize, open: Seq<char>, close: Seq<char>)
    requires
        regex_is_match(p.head_string@, open),
        !regex_is_match(p.end_slash@, open),
        !regex_is_match(p.foot_slash@, open),
        !regex_is_match(p.head_string@, close),
        !regex_is_match(p.end_slash@, close),
        regex_is_match(p.foot_slash@, close),
    ensures
        element_lines_spec(p, tab, open) matches Ok((_, d1, _)) ==> (element_lines_spec(p, d1, close) matches Ok(
            (_, d2, w),
        ) ==> d2 == tab && w is None),
{
    lemma_element_lines_depth(p, tab, open);
    if let Ok((_, d1, _)) = element_lines_spec(p, tab, open) {
        lemma_element_lines_depth(p, d1, close);
    }
}

} // verus!
