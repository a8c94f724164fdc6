//! Formatting a whole document: the input bytes are cut at each `>` byte,
//! each piece is decoded as UTF-8 and laid out in turn.

use vstd::prelude::*;
use vstd::utf8::{decode_utf8, encode_utf8_decode_utf8, valid_utf8};
use crate::formatter::{Fault, FmtState, Patterns, StateView, opt_view, start_spec, step_spec};
use crate::text::{join_spec, lemma_join_split, lemma_split_nonempty, lemma_split_pieces_lack_separator, split_spec, utf8};
use crate::formatter::{lemma_step_extends_output, lemma_step_keeps_buffer_empty};

verus! {

/// The pieces between `>` bytes, as `BufRead::split(b'>')` yields them: no
/// piece after a final `>`, and none at all for empty input.
pub open spec fn chunks_spec(input: Seq<u8>) -> Seq<Seq<u8>> {
    let ps = split_spec(input, 62u8);
    if ps.last().len() == 0 {
        ps.drop_last()
    } else {
        ps
    }
}

/// The warnings of one step, as a list.
pub open spec fn warnings_of(w: Option<Seq<char>>) -> Seq<Seq<char>> {
    match w {
        Some(x) => seq![x],
        None => Seq::<Seq<char>>::empty(),
    }
}

/// One more piece after `acc` (state, warnings, fault): nothing happens
/// once there is a fault; a piece that is not UTF-8 is a fault; otherwise
/// the piece is laid out by `step_spec`.
pub open spec fn run_next(p: &Patterns, acc: (StateView, Seq<Seq<char>>, Option<Fault>), chunk: Seq<u8>) -> (StateView, Seq<Seq<char>>, Option<Fault>) {
    let (st, ws, f) = acc;
    if f is Some {
        acc
    } else if !valid_utf8(chunk) {
        (st, ws, Some(Fault::BadUtf8))
    } else {
        match step_spec(p, st, decode_utf8(chunk)) {
            Ok((s2, w)) => (s2, ws + warnings_of(w), None),
            Err(e) => (st, ws, Some(e)),
        }
    }
}

/// The state, the warnings printed and the fault, if any, after the pieces
/// in `chunks`, starting from `start_spec()`.
pub open spec fn run_spec(p: &Patterns, chunks: Seq<Seq<u8>>) -> (StateView, Seq<Seq<char>>, Option<Fault>)
    decreases chunks.len(),
{
    if chunks.len() == 0 {
        (start_spec(), Seq::<Seq<char>>::empty(), None)
    } else {
        run_next(p, run_spec(p, chunks.drop_last()), chunks.last())
    }
}

proof fn lemma_run_take_next(p: &Patterns, chunks: Seq<Seq<u8>>, i: int)
    requires
        0 <= i < chunks.len(),
    ensures
        run_spec(p, chunks.take(i + 1)) == run_next(p, run_spec(p, chunks.take(i)), chunks[i]),
{
    assert(chunks.take(i + 1).drop_last() =~= chunks.take(i));
}

/// Reads bytes as UTF-8 text.
/// Calls `std::str::from_utf8`, which the std documentation describes as
/// succeeding exactly on valid UTF-8, with a string of those same bytes.
#[verifier::external_body]
fn utf8_str<'a>(b: &'a [u8]) -> (r: Option<&'a str>)
    ensures
        r is Some <==> valid_utf8(b@),
        r matches Some(s) ==> utf8(s@) == b@,
{
    std::str::from_utf8(b).ok()
}

/// The pieces of the input between `>` bytes; see `chunks_spec`.
pub fn chunks(input: &[u8]) -> (r: Vec<Vec<u8>>)
    ensures
        r@.len() == chunks_spec(input@).len(),
        forall|k: int| 0 <= k < r@.len() ==> #[trigger] r@[k]@ == chunks_spec(input@)[k],
{
    let mut done: Vec<Vec<u8>> = Vec::new();
    let mut cur: Vec<u8> = Vec::new();
    let mut i: usize = 0;
    while i < input.len()
        invariant
            i <= input@.len(),
            done@.len() + 1 == split_spec(input@.take(i as int), 62u8).len(),
            forall|k: int| 0 <= k < done@.len() ==> #[trigger] done@[k]@ == split_spec(input@.take(i as int), 62u8)[k],
            cur@ == split_spec(input@.take(i as int), 62u8).last(),
        decreases input.len() - i,
    {
        proof {
            lemma_split_nonempty(input@.take(i as int), 62u8);
            assert(input@.take(i + 1).drop_last() =~= input@.take(i as int));
        }
        if input[i] == 62u8 {
            done.push(cur);
            cur = Vec::new();
        } else {
            cur.push(input[i]);
        }
        i = i + 1;
    }
    proof {
        assert(input@.take(i as int) =~= input@);
        lemma_split_nonempty(input@, 62u8);
    }
    if cur.len() > 0 {
        done.push(cur);
    }
    done
}

/// What formatting a document gives: the output (empty when formatting
/// stopped on a fault), the warnings printed along the way, and the fault
/// that stopped it, if any.
pub struct Outcome {
    pub output: String,
    pub warnings: Vec<String>,
    pub fault: Option<Fault>,
}

proof fn lemma_run_fault_stays(p: &Patterns, chunks: Seq<Seq<u8>>, k: nat)
    requires
        k <= chunks.len(),
        run_spec(p, chunks.take(k as int)).2 is Some,
    ensures
        run_spec(p, chunks) == run_spec(p, chunks.take(k as int)),
    decreases chunks.len() - k,
{
    if k < chunks.len() {
        assert(chunks.drop_last().take(k as int) =~= chunks.take(k as int));
        lemma_run_fault_stays(p, chunks.drop_last(), k);
    } else {
        assert(chunks.take(k as int) =~= chunks);
    }
}

/// Formats a whole document: cuts it into pieces at `>` and lays each out
/// with `FmtState::step`, stopping at the first piece that is not UTF-8 or
/// that cannot be laid out.
pub fn format_bytes(p: &Patterns, input: &[u8]) -> (r: Outcome)
    ensures
        ({
            let (st, ws, f) = run_spec(p, chunks_spec(input@));
            &&& r.output@ == (if f is None { st.xml_out } else { Seq::<char>::empty() })
            &&& r.warnings@.len() == ws.len()
            &&& forall|k: int| 0 <= k < ws.len() ==> #[trigger] r.warnings@[k]@ == ws[k]
            &&& r.fault == f
        }),
{
    let pieces = chunks(input);
    let ghost cs = chunks_spec(input@);
    let mut st = FmtState::new();
    let mut warnings: Vec<String> = Vec::new();
    let mut i: usize = 0;
    while i < pieces.len()
        invariant
            i <= pieces@.len(),
            cs == chunks_spec(input@),
            pieces@.len() == cs.len(),
            forall|k: int| 0 <= k < pieces@.len() ==> #[trigger] pieces@[k]@ == cs[k],
            run_spec(p, cs.take(i as int)).0 == st@,
            run_spec(p, cs.take(i as int)).1.len() == warnings@.len(),
            forall|k: int| 0 <= k < warnings@.len() ==> #[trigger] warnings@[k]@ == run_spec(p, cs.take(i as int)).1[k],
            run_spec(p, cs.take(i as int)).2 is None,
        decreases pieces.len() - i,
    {
        let ghost prev = cs.take(i as int);
        proof {
            lemma_run_take_next(p, cs, i as int);
        }
        let piece = &pieces[i];
        assert(piece@ == cs[i as int]);
        let text = match utf8_str(piece.as_slice()) {
            Some(t) => t,
            None => {
                proof {
                    lemma_run_fault_stays(p, cs, (i + 1) as nat);
                }
                return Outcome { output: String::new(), warnings, fault: Some(Fault::BadUtf8) };
            },
        };
        proof {
            encode_utf8_decode_utf8(text@);
        }
        match st.step(p, text) {
            Ok(w) => {
                match w {
                    Some(msg) => {
                        warnings.push(msg);
                    },
                    None => {},
                }
                proof {
                    let ws = run_spec(p, cs.take(i + 1)).1;
                    assert(ws =~= run_spec(p, prev).1 + warnings_of(opt_view(w)));
                }
            },
            Err(f) => {
                proof {
                    lemma_run_fault_stays(p, cs, (i + 1) as nat);
                }
                return Outcome { output: String::new(), warnings, fault: Some(f) };
            },
        }
        i = i + 1;
    }
    proof {
        assert(cs.take(i as int) =~= cs);
    }
    Outcome { output: st.xml_out, warnings, fault: None }
}


/// The pieces hold no `>`, and joining them with `>` gives back the input,
/// but for a `>` that ends it.
pub proof fn lemma_chunks_rejoin(input: Seq<u8>)
    ensures
        forall|k: int| 0 <= k < chunks_spec(input).len() ==> !(#[trigger] chunks_spec(input)[k]).contains(62u8),
        input.len() > 0 && input.last() == 62u8 ==> join_spec(chunks_spec(input), 62u8).push(62u8) == input,
        !(input.len() > 0 && input.last() == 62u8) ==> join_spec(chunks_spec(input), 62u8) == input,
{
    let ps = split_spec(input, 62u8);
    lemma_split_nonempty(input, 62u8);
    lemma_split_pieces_lack_separator(input, 62u8);
    lemma_join_split(input, 62u8);
    if input.len() == 0 {
        assert(chunks_spec(input) =~= Seq::<Seq<u8>>::empty());
    } else {
        let init = input.drop_last();
        lemma_split_nonempty(init, 62u8);
        lemma_join_split(init, 62u8);
        if input.last() == 62u8 {
            assert(ps.last().len() == 0);
            assert(chunks_spec(input) =~= split_spec(init, 62u8));
            assert(init.push(62u8) =~= input);
        } else {
            let rest = split_spec(init, 62u8);
            assert(ps.last() == rest.last().push(input.last()));
            assert(ps.last().len() > 0);
        }
    }
    assert forall|k: int| 0 <= k < chunks_spec(input).len() implies !(#[trigger] chunks_spec(input)[k]).contains(62u8) by {
        assert(chunks_spec(input)[k] == ps[k]);
    }
}

/// Formatting only adds to the output: what the first `k` pieces write is
/// the start of what all the pieces write.
pub proof fn lemma_run_extends_output(p: &Patterns, chunks: Seq<Seq<u8>>, k: nat)
    requires
        k <= chunks.len(),
    ensures
        run_spec(p, chunks.take(k as int)).0.xml_out.is_prefix_of(run_spec(p, chunks).0.xml_out),
    decreases chunks.len(),
{
    if k == chunks.len() {
        assert(chunks.take(k as int) =~= chunks);
    } else {
        let init = chunks.drop_last();
        assert(init.take(k as int) =~= chunks.take(k as int));
        lemma_run_extends_output(p, init, k);
        let (st, ws, f) = run_spec(p, init);
        let a = run_spec(p, chunks.take(k as int)).0.xml_out;
        let b = run_spec(p, chunks).0.xml_out;
        if f is None && valid_utf8(chunks.last()) {
            lemma_step_extends_output(p, st, decode_utf8(chunks.last()));
        }
        assert(st.xml_out.is_prefix_of(b));
        assert(a =~= b.subrange(0, a.len() as int));
    }
}

/// Whenever no CDATA section is open after some input, no code is held back.
pub proof fn lemma_run_keeps_buffer_empty(p: &Patterns, chunks: Seq<Seq<u8>>)
    ensures
        !run_spec(p, chunks).0.in_cdata ==> run_spec(p, chunks).0.perl_code.len() == 0,
    decreases chunks.len(),
{
    if chunks.len() > 0 {
        let init = chunks.drop_last();
        lemma_run_keeps_buffer_empty(p, init);
        let (st, ws, f) = run_spec(p, init);
        if f is None && valid_utf8(chunks.last()) {
            lemma_step_keeps_buffer_empty(p, st, decode_utf8(chunks.last()));
        }
    }
}

} // verus!
