//! Character-level string helpers shared by the formatter.

use vstd::prelude::*;
use vstd::utf8::*;
use vstd::string::StringSliceAdditionalSpecFns;

verus! {

/// `n` tab characters.
pub open spec fn tabs_spec(n: nat) -> Seq<char> {
    Seq::new(n, |i: int| '\t')
}

/// Appends one character to a string.
/// Calls `String::push`, which the std documentation describes as appending
/// the given `char` to the end of the string.
#[verifier::external_body]
pub(crate) fn push_char(s: &mut String, c: char)
    ensures
        final(s)@ == old(s)@.push(c),
{
    s.push(c);
}

/// A string of `n` tab characters, as `"\t".repeat(n)` builds it.
pub fn tabs(n: usize) -> (r: String)
    ensures
        r@ == tabs_spec(n as nat),
{
    let mut r = String::new();
    let mut i: usize = 0;
    while i < n
        invariant
            i <= n,
            r@ == tabs_spec(i as nat),
        decreases n - i,
    {
        push_char(&mut r, '\t');
        i = i + 1;
        assert(r@ =~= tabs_spec(i as nat));
    }
    r
}

/// The characters of a string slice, in order.
pub fn chars_of(s: &str) -> (v: Vec<char>)
    ensures
        v@ == s@,
{
    let mut v: Vec<char> = Vec::new();
    for c in it: s.chars()
        invariant
            v@ == it.seq().take(it.index() as int),
    {
        v.push(c);
    }
    v
}


/// What `str::replace` computes: `s` with every non-overlapping occurrence
/// of `pat`, scanned from the left, replaced by `rep`. An empty pattern
/// occurs before each character and at the end.
pub open spec fn replace_spec(s: Seq<char>, pat: Seq<char>, rep: Seq<char>) -> Seq<char>
    decreases s.len(),
{
    if pat.len() == 0 {
        if s.len() == 0 {
            rep
        } else {
            rep + seq![s[0]] + replace_spec(s.skip(1), pat, rep)
        }
    } else if s.len() < pat.len() {
        s
    } else if s.take(pat.len() as int) == pat {
        rep + replace_spec(s.skip(pat.len() as int), pat, rep)
    } else {
        seq![s[0]] + replace_spec(s.skip(1), pat, rep)
    }
}

/// Appends a string slice to a string.
pub fn push_str(s: &mut String, t: &str)
    ensures
        final(s)@ == old(s)@ + t@,
{
    s.append(t);
}

/// Whether `pat` occurs in `s` at position `i`.
fn occurs_at(s: &Vec<char>, pat: &Vec<char>, i: usize) -> (r: bool)
    requires
        i <= s.len(),
    ensures
        r == (i + pat.len() <= s.len() && s@.subrange(i as int, i + pat.len()) == pat@),
{
    if pat.len() > s.len() - i {
        return false;
    }
    let mut j: usize = 0;
    while j < pat.len()
        invariant
            i + pat.len() <= s.len(),
            j <= pat.len(),
            forall|k: int| 0 <= k < j ==> s@[i + k] == pat@[k],
        decreases pat.len() - j,
    {
        if s[i + j] != pat[j] {
            assert(s@.subrange(i as int, i + pat.len())[j as int] != pat@[j as int]);
            return false;
        }
        j = j + 1;
    }
    assert(s@.subrange(i as int, i + pat.len()) =~= pat@);
    true
}

/// `str::replace` with an empty pattern: `rep` before each character and at
/// the end.
fn replace_empty_pattern(s: &str, pat: &str, rep: &str) -> (r: String)
    requires
        pat@.len() == 0,
    ensures
        r@ == replace_spec(s@, pat@, rep@),
{
    let sv = chars_of(s);
    let n = sv.len();
    let mut out = String::new();
    let mut i: usize = 0;
    assert(sv@.skip(0) =~= sv@);
    while i < n
        invariant
            sv@ == s@,
            n == sv.len(),
            pat@.len() == 0,
            i <= n,
            replace_spec(s@, pat@, rep@) == out@ + replace_spec(sv@.skip(i as int), pat@, rep@),
        decreases n - i,
    {
        let ghost rest = sv@.skip(i as int);
        assert(rest.skip(1) =~= sv@.skip(i + 1));
        push_str(&mut out, rep);
        push_char(&mut out, sv[i]);
        i = i + 1;
        assert(out@ + replace_spec(sv@.skip(i as int), pat@, rep@) =~= replace_spec(s@, pat@, rep@));
    }
    assert(sv@.skip(i as int).len() == 0);
    push_str(&mut out, rep);
    out
}

/// `str::replace`: every non-overlapping occurrence of `pat` replaced by `rep`.
pub fn replace(s: &str, pat: &str, rep: &str) -> (r: String)
    ensures
        r@ == replace_spec(s@, pat@, rep@),
{
    let sv = chars_of(s);
    let pv = chars_of(pat);
    let n = sv.len();
    let m = pv.len();
    if m == 0 {
        return replace_empty_pattern(s, pat, rep);
    }
    let mut out = String::new();
    let mut i: usize = 0;
    assert(sv@.skip(0) =~= sv@);
    while i < n
        invariant
            sv@ == s@,
            pv@ == pat@,
            n == sv.len(),
            m == pv.len(),
            m > 0,
            i <= n,
            replace_spec(s@, pat@, rep@) == out@ + replace_spec(sv@.skip(i as int), pat@, rep@),
        decreases n - i,
    {
        let ghost rest = sv@.skip(i as int);
        if occurs_at(&sv, &pv, i) {
            assert(rest.take(m as int) =~= sv@.subrange(i as int, i + m));
            assert(rest.skip(m as int) =~= sv@.skip(i + m));
            push_str(&mut out, rep);
            i = i + m;
        } else {
            if m <= n - i {
                assert(rest.take(m as int) =~= sv@.subrange(i as int, i + m));
            }
            assert(rest.skip(1) =~= sv@.skip(i + 1));
            push_char(&mut out, sv[i]);
            i = i + 1;
        }
        assert(out@ + replace_spec(sv@.skip(i as int), pat@, rep@) == replace_spec(s@, pat@, rep@));
    }
    assert(out@ + replace_spec(sv@.skip(i as int), pat@, rep@) =~= out@);
    out
}


/// Removes the last character of a string, if there is one.
/// Calls `String::pop`, which the std documentation describes as removing
/// the last character and returning it, or returning `None` (leaving the
/// string alone) when the string is empty.
#[verifier::external_body]
pub(crate) fn pop_char(s: &mut String) -> (r: Option<char>)
    ensures
        old(s)@.len() == 0 ==> r is None && final(s)@ == old(s)@,
        old(s)@.len() > 0 ==> r == Some(old(s)@.last()) && final(s)@ == old(s)@.drop_last(),
{
    s.pop()
}

/// `s` without its last character (unchanged when empty): what `String::pop` leaves.
pub open spec fn pop_spec(s: Seq<char>) -> Seq<char> {
    if s.len() == 0 {
        s
    } else {
        s.drop_last()
    }
}

/// The UTF-8 bytes of a character sequence.
pub open spec fn utf8(s: Seq<char>) -> Seq<u8> {
    encode_utf8(s)
}

/// Whether `&s[a..b]` is a valid slice: `a <= b <= len` in bytes and both
/// offsets fall on character boundaries.
pub open spec fn slice_ok(s: Seq<char>, a: int, b: int) -> bool {
    &&& 0 <= a <= b <= utf8(s).len()
    &&& is_char_boundary(utf8(s), a)
    &&& is_char_boundary(utf8(s), b)
}

/// The characters of the byte range `a..b` of `s`.
pub open spec fn byte_range(s: Seq<char>, a: int, b: int) -> Seq<char> {
    decode_utf8(utf8(s).subrange(a, b))
}

/// What `&s[a..b]` gives: `None` where that expression panics.
pub open spec fn slice_spec(s: Seq<char>, a: int, b: int) -> Option<Seq<char>> {
    if slice_ok(s, a, b) {
        Some(byte_range(s, a, b))
    } else {
        None
    }
}

proof fn lemma_boundary_in_tail(bytes: Seq<u8>, a: int, b: int)
    requires
        valid_utf8(bytes),
        0 <= a <= b <= bytes.len(),
        is_char_boundary(bytes, a),
        is_char_boundary(bytes, b),
    ensures
        valid_utf8(bytes.subrange(a, bytes.len() as int)),
        is_char_boundary(bytes.subrange(a, bytes.len() as int), b - a),
{
    let tail = bytes.subrange(a, bytes.len() as int);
    valid_utf8_split(bytes, a);
    is_char_boundary_start_end_of_seq(tail);
    if 0 < b - a && b < bytes.len() {
        is_char_boundary_iff_not_is_continuation_byte(tail, b - a);
        is_char_boundary_iff_not_is_continuation_byte(bytes, b);
        assert(tail[b - a] == bytes[b]);
    } else if b == bytes.len() {
        assert(b - a == tail.len());
    }
}

/// The UTF-8 encoding of a concatenation is the concatenation of the
/// encodings.
pub proof fn lemma_utf8_concat(a: Seq<char>, b: Seq<char>)
    ensures
        utf8(a + b) == utf8(a) + utf8(b),
    decreases a.len(),
{
    if a.len() == 0 {
        assert(a + b =~= b);
        assert(utf8(a) + utf8(b) =~= utf8(b));
    } else {
        assert((a + b).drop_first() =~= a.drop_first() + b);
        lemma_utf8_concat(a.drop_first(), b);
        assert(utf8(a + b) =~= utf8(a) + utf8(b));
    }
}

proof fn lemma_scalar_not_newline(c: char)
    requires
        c != '\n',
    ensures
        forall|i: int| 0 <= i < encode_scalar(c as u32).len() ==> #[trigger] encode_scalar(c as u32)[i] != 10u8,
{
    let v = c as u32;
    assert(v != 10u32);
    assert(v <= 0x7F && v != 10u32 ==> ((v & 0x7F) as u8) != 10u8) by (bit_vector);
    assert(forall|x: u8| (0xC0u8 | x) != 10u8) by (bit_vector);
    assert(forall|x: u8| (0xE0u8 | x) != 10u8) by (bit_vector);
    assert(forall|x: u8| (0xF0u8 | x) != 10u8) by (bit_vector);
    assert(forall|x: u8| (0x80u8 | x) != 10u8) by (bit_vector);
}

/// Where a string has no line break, neither has its UTF-8 encoding.
pub proof fn lemma_utf8_no_newline(s: Seq<char>)
    requires
        !s.contains('\n'),
    ensures
        forall|i: int| 0 <= i < utf8(s).len() ==> utf8(s)[i] != 10u8,
    decreases s.len(),
{
    if s.len() > 0 {
        assert(s[0] != '\n');
        lemma_scalar_not_newline(s[0]);
        let rest = s.drop_first();
        assert(!rest.contains('\n')) by {
            if rest.contains('\n') {
                let j = choose|j: int| 0 <= j < rest.len() && rest[j] == '\n';
                assert(s[j + 1] == '\n');
            }
        }
        lemma_utf8_no_newline(rest);
        let head = encode_scalar(s[0] as u32);
        assert(utf8(s) == head + utf8(rest));
        assert forall|i: int| 0 <= i < utf8(s).len() implies utf8(s)[i] != 10u8 by {
            if i < head.len() {
                assert(utf8(s)[i] == head[i]);
            } else {
                assert(utf8(s)[i] == utf8(rest)[i - head.len()]);
            }
        }
    }
}

/// Replacing a pattern that does not occur changes nothing.
pub proof fn lemma_replace_absent(s: Seq<char>, pat: Seq<char>, rep: Seq<char>)
    requires
        pat.len() > 0,
        forall|i: int| 0 <= i && i + pat.len() <= s.len() ==> #[trigger] s.subrange(i, i + pat.len()) != pat,
    ensures
        replace_spec(s, pat, rep) == s,
    decreases s.len(),
{
    if s.len() >= pat.len() {
        let z: int = 0;
        assert(s.subrange(z, z + pat.len()) != pat);
        assert(s.take(pat.len() as int) =~= s.subrange(z, z + pat.len()));
        let rest = s.skip(1);
        assert forall|i: int| 0 <= i && i + pat.len() <= rest.len() implies #[trigger] rest.subrange(i, i + pat.len()) != pat by {
            assert(rest.subrange(i, i + pat.len()) =~= s.subrange(i + 1, i + 1 + pat.len()));
        }
        lemma_replace_absent(rest, pat, rep);
        assert(seq![s[0]] + rest =~= s);
    }
}

/// Replacing a pattern that occurs once, right after `a` (and nowhere that
/// starts inside `a`, nor in `b`), replaces just that occurrence.
pub proof fn lemma_replace_once(a: Seq<char>, pat: Seq<char>, b: Seq<char>, rep: Seq<char>)
    requires
        pat.len() > 0,
        forall|i: int| 0 <= i < a.len() ==> #[trigger] (a + pat + b).subrange(i, i + pat.len()) != pat,
        forall|i: int| 0 <= i && i + pat.len() <= b.len() ==> #[trigger] b.subrange(i, i + pat.len()) != pat,
    ensures
        replace_spec(a + pat + b, pat, rep) == a + rep + b,
    decreases a.len(),
{
    let s = a + pat + b;
    if a.len() == 0 {
        assert(s.take(pat.len() as int) =~= pat);
        assert(s.skip(pat.len() as int) =~= b);
        lemma_replace_absent(b, pat, rep);
        assert(a + rep + b =~= rep + b);
    } else {
        let z: int = 0;
        assert(s.subrange(z, z + pat.len()) != pat);
        assert(s.take(pat.len() as int) =~= s.subrange(z, z + pat.len()));
        let a1 = a.drop_first();
        assert(s.skip(1) =~= a1 + pat + b);
        assert forall|i: int| 0 <= i < a1.len() implies #[trigger] (a1 + pat + b).subrange(i, i + pat.len()) != pat by {
            assert((a1 + pat + b).subrange(i, i + pat.len()) =~= s.subrange(i + 1, i + 1 + pat.len()));
        }
        lemma_replace_once(a1, pat, b, rep);
        assert(seq![a[0]] + (a1 + rep + b) =~= a + rep + b);
    }
}

/// Replacing a one-character pattern in text that holds it only at its end
/// replaces that last character.
pub proof fn lemma_replace_last_char(a: Seq<char>, c: char, rep: Seq<char>)
    requires
        !a.contains(c),
    ensures
        replace_spec(a.push(c), seq![c], rep) == a + rep,
    decreases a.len(),
{
    let s = a.push(c);
    assert(seq![c].len() == 1);
    if a.len() == 0 {
        assert(s.take(1) =~= seq![c]);
        assert(s.skip(1) =~= Seq::<char>::empty());
        assert(replace_spec(Seq::<char>::empty(), seq![c], rep) == Seq::<char>::empty());
        assert(rep + Seq::<char>::empty() =~= rep);
        assert(a + rep =~= rep);
    } else {
        assert(a[0] != c);
        assert(s.take(1) != seq![c]) by {
            assert(s.take(1)[0] == a[0]);
        }
        let rest = a.drop_first();
        assert(!rest.contains(c)) by {
            if rest.contains(c) {
                let j = choose|j: int| 0 <= j < rest.len() && rest[j] == c;
                assert(a[j + 1] == c);
            }
        }
        assert(s.skip(1) =~= rest.push(c));
        lemma_replace_last_char(rest, c, rep);
        assert(seq![a[0]] + (rest + rep) =~= a + rep);
    }
}

/// `&s[a..b]` as an owned string, or `None` where that expression panics.
pub fn slice(s: &str, a: usize, b: usize) -> (r: Option<String>)
    ensures
        r matches Some(t) ==> slice_spec(s@, a as int, b as int) == Some(t@),
        r is None ==> slice_spec(s@, a as int, b as int) is None,
{
    proof {
        encode_utf8_valid_utf8(s@);
    }
    let n = s.as_bytes().len();
    if a <= b && b <= n && s.is_char_boundary(a) && s.is_char_boundary(b) {
        proof {
            lemma_boundary_in_tail(utf8(s@), a as int, b as int);
        }
        let (_, tail) = s.split_at(a);
        let (mid, _) = tail.split_at(b - a);
        proof {
            assert(mid.spec_bytes() =~= utf8(s@).subrange(a as int, b as int));
            encode_utf8_decode_utf8(mid@);
        }
        Some(mid.to_owned())
    } else {
        None
    }
}

/// The byte at offset `i` of the UTF-8 encoding of `s`: `s.as_bytes()[i]`.
pub fn byte_at(s: &str, i: usize) -> (r: u8)
    requires
        i < utf8(s@).len(),
    ensures
        r == utf8(s@)[i as int],
{
    s.as_bytes()[i]
}

/// The pieces of `s` between occurrences of `c`, as `str::split` yields them
/// for a `char` pattern (always at least one piece).
pub open spec fn split_spec<T>(s: Seq<T>, c: T) -> Seq<Seq<T>>
    decreases s.len(),
{
    if s.len() == 0 {
        seq![Seq::<T>::empty()]
    } else {
        let rest = split_spec(s.drop_last(), c);
        if s.last() == c {
            rest.push(Seq::<T>::empty())
        } else {
            rest.update(rest.len() - 1, rest.last().push(s.last()))
        }
    }
}

/// The pieces of a sequence joined with `c` between each two.
pub open spec fn join_spec<T>(pieces: Seq<Seq<T>>, c: T) -> Seq<T>
    decreases pieces.len(),
{
    if pieces.len() == 0 {
        Seq::<T>::empty()
    } else if pieces.len() == 1 {
        pieces[0]
    } else {
        join_spec(pieces.drop_last(), c) + seq![c] + pieces.last()
    }
}

pub proof fn lemma_split_nonempty<T>(s: Seq<T>, c: T)
    ensures
        split_spec(s, c).len() >= 1,
    decreases s.len(),
{
    if s.len() > 0 {
        lemma_split_nonempty(s.drop_last(), c);
    }
}

/// Splitting on `c` and joining the pieces with `c` gives back the string.
pub proof fn lemma_join_split<T>(s: Seq<T>, c: T)
    ensures
        join_spec(split_spec(s, c), c) == s,
    decreases s.len(),
{
    lemma_split_nonempty(s, c);
    if s.len() > 0 {
        let init = s.drop_last();
        let rest = split_spec(init, c);
        lemma_join_split(init, c);
        lemma_split_nonempty(init, c);
        if s.last() == c {
            let ps = rest.push(Seq::<T>::empty());
            assert(ps.drop_last() =~= rest);
            assert(join_spec(ps, c) =~= s);
        } else {
            let ps = rest.update(rest.len() - 1, rest.last().push(s.last()));
            if rest.len() == 1 {
                assert(join_spec(rest, c) == rest[0]);
                assert(join_spec(ps, c) == ps[0]);
                assert(s =~= init.push(s.last()));
            } else {
                assert(ps.drop_last() =~= rest.drop_last());
                assert(join_spec(rest, c) == join_spec(rest.drop_last(), c) + seq![c] + rest.last());
                assert(ps.last() == rest.last().push(s.last()));
                assert(join_spec(ps, c) == join_spec(ps.drop_last(), c) + seq![c] + ps.last());
                assert(s =~= init.push(s.last()));
                assert(join_spec(ps, c) =~= s);
            }
        }
    }
}

/// No piece of a split holds the separator.
pub proof fn lemma_split_pieces_lack_separator<T>(s: Seq<T>, c: T)
    ensures
        forall|k: int| 0 <= k < split_spec(s, c).len() ==> !(#[trigger] split_spec(s, c)[k]).contains(c),
    decreases s.len(),
{
    lemma_split_nonempty(s, c);
    if s.len() > 0 {
        let init = s.drop_last();
        lemma_split_pieces_lack_separator(init, c);
        lemma_split_nonempty(init, c);
        let rest = split_spec(init, c);
        if s.last() != c {
            let last = rest.last().push(s.last());
            assert forall|j: int| 0 <= j < last.len() implies last[j] != c by {
                if j < rest.last().len() {
                    assert(!rest[rest.len() - 1].contains(c));
                    assert(last[j] == rest.last()[j]);
                }
            }
        }
        assert forall|k: int| 0 <= k < split_spec(s, c).len() implies !(#[trigger] split_spec(s, c)[k]).contains(c) by {
            if k < rest.len() - 1 {
                assert(!rest[k].contains(c));
            } else if s.last() != c {
                let last = rest.last().push(s.last());
                assert(split_spec(s, c)[k] == last);
                assert(forall|j: int| 0 <= j < last.len() ==> last[j] != c);
            } else if k == rest.len() - 1 {
                assert(!rest[k].contains(c));
            }
        }
    }
}

/// Whether `t` is the one-character string `c`.
pub fn is_one(t: &str, c: char) -> (r: bool)
    ensures
        r == (t@ == seq![c]),
{
    let v = chars_of(t);
    if v.len() == 1 && v[0] == c {
        assert(t@ =~= seq![c]);
        true
    } else {
        false
    }
}


/// `s.split(c)`, collected.
pub fn split_char(s: &str, c: char) -> (r: Vec<String>)
    ensures
        r@.len() == split_spec(s@, c).len(),
        forall|k: int| 0 <= k < r@.len() ==> #[trigger] r@[k]@ == split_spec(s@, c)[k],
{
    let sv = chars_of(s);
    let mut done: Vec<String> = Vec::new();
    let mut cur = String::new();
    let mut i: usize = 0;
    while i < sv.len()
        invariant
            sv@ == s@,
            i <= sv.len(),
            done@.len() + 1 == split_spec(sv@.take(i as int), c).len(),
            forall|k: int| 0 <= k < done@.len() ==> #[trigger] done@[k]@ == split_spec(sv@.take(i as int), c)[k],
            cur@ == split_spec(sv@.take(i as int), c).last(),
        decreases sv.len() - i,
    {
        proof {
            lemma_split_nonempty(sv@.take(i as int), c);
            assert(sv@.take(i + 1).drop_last() =~= sv@.take(i as int));
        }
        if sv[i] == c {
            done.push(cur);
            cur = String::new();
        } else {
            push_char(&mut cur, sv[i]);
        }
        i = i + 1;
    }
    proof {
        assert(sv@.take(i as int) =~= s@);
    }
    done.push(cur);
    done
}

} // verus!
