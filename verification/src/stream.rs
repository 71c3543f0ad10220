//! Reference state machines shared by all streaming codecs.
//!
//! A decoder is modelled as a transition function from a carry state and one
//! input byte to a [`Step`]; [`dec_run`] folds it over a chunk and yields the
//! final carry state, the characters resolved along the way, and on failure
//! the exact consumed count and fault offset. An encoder is modelled as a
//! per-character function from a code point to its byte sequence, folded by
//! [`enc_run`]. The codecs' `raw_feed` contracts state their whole behaviour
//! as one run of these machines, and the laws at the end of this module
//! (chunk-boundary invariance, ASCII identity, error locality) are proved of
//! the machines once, for every codec.

use vstd::prelude::*;

verus! {

/// Outcome of one decoder transition on one input byte.
pub enum Step<S> {
    /// The byte was accepted: the next carry state, and at most one
    /// character resolved by it.
    Next { state: S, emit: Option<char> },
    /// The byte ended an invalid unit. `taken` tells whether the fault
    /// span takes this byte in, or leaves it unconsumed, eligible to be
    /// re-read as the start of the next unit.
    Error { taken: bool },
}

/// Result of running a decoder over a whole chunk.
pub enum DecOutcome<S> {
    /// The whole chunk was translated; `state` is the carry for the next
    /// feed call and `out` the characters resolved.
    Done { state: S, out: Seq<char> },
    /// Translation failed. `consumed` is the offset one past the last unit
    /// whose translation was committed, `upto` the offset one past the
    /// invalid unit, and `out` what was committed before the failure.
    Fault { consumed: int, upto: int, out: Seq<char> },
}

/// Folds `step` over `input` from offset `i`, starting in carry state
/// `state`. `clean` is the state in which no partial unit is pending:
/// reaching it marks a committed offset, and `committed` is the last one
/// marked so far. Characters resolved from `i` on are prepended to the
/// outcome on the way out.
pub open spec fn dec_run<S>(
    step: spec_fn(S, u8) -> Step<S>,
    clean: S,
    input: Seq<u8>,
    i: int,
    state: S,
    committed: int,
) -> DecOutcome<S>
    decreases input.len() - i,
{
    if i < 0 || i >= input.len() {
        DecOutcome::Done { state, out: Seq::empty() }
    } else {
        match step(state, input[i]) {
            Step::Next { state: s2, emit } => {
                let c2 = if s2 == clean {
                    i + 1
                } else {
                    committed
                };
                let rest = dec_run(step, clean, input, i + 1, s2, c2);
                let emitted = match emit {
                    Some(c) => seq![c],
                    None => Seq::empty(),
                };
                match rest {
                    DecOutcome::Done { state: s3, out } => DecOutcome::Done {
                        state: s3,
                        out: emitted + out,
                    },
                    DecOutcome::Fault { consumed, upto, out } => DecOutcome::Fault {
                        consumed,
                        upto,
                        out: emitted + out,
                    },
                }
            },
            Step::Error { taken } => DecOutcome::Fault {
                consumed: committed,
                upto: if taken {
                    i + 1
                } else {
                    i
                },
                out: Seq::empty(),
            },
        }
    }
}

/// A whole feed call of a decoder: one run over the chunk from its start.
pub open spec fn dec_feed<S>(
    step: spec_fn(S, u8) -> Step<S>,
    clean: S,
    input: Seq<u8>,
    state: S,
) -> DecOutcome<S> {
    dec_run(step, clean, input, 0, state, 0)
}

/// Prepends already-committed characters to a run outcome.
pub open spec fn dec_prepend<S>(out0: Seq<char>, r: DecOutcome<S>) -> DecOutcome<S> {
    match r {
        DecOutcome::Done { state, out } => DecOutcome::Done { state, out: out0 + out },
        DecOutcome::Fault { consumed, upto, out } => DecOutcome::Fault {
            consumed,
            upto,
            out: out0 + out,
        },
    }
}

pub(crate) proof fn lemma_dec_prepend_prepend<S>(o1: Seq<char>, o2: Seq<char>, r: DecOutcome<S>)
    ensures
        dec_prepend(o1, dec_prepend(o2, r)) == dec_prepend(o1 + o2, r),
{
    match r {
        DecOutcome::Done { state, out } => {
            assert(o1 + (o2 + out) =~= (o1 + o2) + out);
        },
        DecOutcome::Fault { consumed, upto, out } => {
            assert(o1 + (o2 + out) =~= (o1 + o2) + out);
        },
    }
}

/// Result of running an encoder over a whole chunk.
pub enum EncOutcome {
    /// Every code point was translated; `out` holds the bytes.
    Done { out: Seq<u8> },
    /// A code point had no mapping. `consumed` is its offset (every code
    /// point before it was translated), `upto` the offset one past it, and
    /// `out` the bytes committed for the prefix.
    Fault { consumed: int, upto: int, out: Seq<u8> },
}

/// Folds the per-character encoding `f` over `input` from offset `i`.
pub open spec fn enc_run(
    f: spec_fn(char) -> Option<Seq<u8>>,
    input: Seq<char>,
    i: int,
) -> EncOutcome
    decreases input.len() - i,
{
    if i < 0 || i >= input.len() {
        EncOutcome::Done { out: Seq::empty() }
    } else {
        match f(input[i]) {
            Some(bytes) => match enc_run(f, input, i + 1) {
                EncOutcome::Done { out } => EncOutcome::Done { out: bytes + out },
                EncOutcome::Fault { consumed, upto, out } => EncOutcome::Fault {
                    consumed,
                    upto,
                    out: bytes + out,
                },
            },
            None => EncOutcome::Fault { consumed: i, upto: i + 1, out: Seq::empty() },
        }
    }
}

/// A whole feed call of an encoder: one run over the chunk from its start.
pub open spec fn enc_feed(f: spec_fn(char) -> Option<Seq<u8>>, input: Seq<char>) -> EncOutcome {
    enc_run(f, input, 0)
}

/// Prepends already-committed bytes to a run outcome.
pub open spec fn enc_prepend(out0: Seq<u8>, r: EncOutcome) -> EncOutcome {
    match r {
        EncOutcome::Done { out } => EncOutcome::Done { out: out0 + out },
        EncOutcome::Fault { consumed, upto, out } => EncOutcome::Fault {
            consumed,
            upto,
            out: out0 + out,
        },
    }
}

pub(crate) proof fn lemma_enc_prepend_prepend(o1: Seq<u8>, o2: Seq<u8>, r: EncOutcome)
    ensures
        enc_prepend(o1, enc_prepend(o2, r)) == enc_prepend(o1 + o2, r),
{
    match r {
        EncOutcome::Done { out } => {
            assert(o1 + (o2 + out) =~= (o1 + o2) + out);
        },
        EncOutcome::Fault { consumed, upto, out } => {
            assert(o1 + (o2 + out) =~= (o1 + o2) + out);
        },
    }
}

proof fn lemma_dec_run_shift<S>(
    step: spec_fn(S, u8) -> Step<S>,
    clean: S,
    a: Seq<u8>,
    b: Seq<u8>,
    j: int,
    s: S,
    c1: int,
    c2: int,
)
    requires
        0 <= j <= b.len(),
    ensures
        ({
            let w = dec_run(step, clean, a + b, a.len() + j, s, c1);
            let r = dec_run(step, clean, b, j, s, c2);
            &&& (w is Done <==> r is Done)
            &&& (w is Done ==> w == r)
        }),
    decreases b.len() - j,
{
    if j == b.len() {
        assert((a + b).len() == a.len() + b.len());
    } else {
        assert((a + b)[a.len() + j] == b[j]);
        match step(s, b[j]) {
            Step::Next { state: s2, .. } => {
                let cw = if s2 == clean {
                    a.len() + j + 1
                } else {
                    c1
                };
                let cr = if s2 == clean {
                    j + 1
                } else {
                    c2
                };
                lemma_dec_run_shift(step, clean, a, b, j + 1, s2, cw, cr);
            },
            Step::Error { .. } => {},
        }
    }
}

proof fn lemma_dec_run_prefix_done<S>(
    step: spec_fn(S, u8) -> Step<S>,
    clean: S,
    a: Seq<u8>,
    b: Seq<u8>,
    i: int,
    s: S,
    c: int,
)
    requires
        0 <= i <= a.len(),
        dec_run(step, clean, a + b, i, s, c) is Done,
    ensures
        dec_run(step, clean, a, i, s, c) is Done,
    decreases a.len() - i,
{
    if i < a.len() {
        assert((a + b)[i] == a[i]);
        match step(s, a[i]) {
            Step::Next { state: s2, .. } => {
                let c2 = if s2 == clean {
                    i + 1
                } else {
                    c
                };
                lemma_dec_run_prefix_done(step, clean, a, b, i + 1, s2, c2);
            },
            Step::Error { .. } => {},
        }
    }
}

proof fn lemma_dec_run_append<S>(
    step: spec_fn(S, u8) -> Step<S>,
    clean: S,
    a: Seq<u8>,
    b: Seq<u8>,
    i: int,
    s: S,
    c: int,
)
    requires
        0 <= i <= a.len(),
        dec_run(step, clean, a, i, s, c) is Done,
    ensures
        ({
            let first = dec_run(step, clean, a, i, s, c);
            let second = dec_run(step, clean, b, 0, first->Done_state, 0);
            let whole = dec_run(step, clean, a + b, i, s, c);
            &&& (whole is Done <==> second is Done)
            &&& (whole is Done ==> whole == (DecOutcome::<S>::Done {
                state: second->Done_state,
                out: first->Done_out + second->Done_out,
            }))
        }),
    decreases a.len() - i,
{
    let first = dec_run(step, clean, a, i, s, c);
    let second = dec_run(step, clean, b, 0, first->Done_state, 0);
    if i == a.len() {
        lemma_dec_run_shift(step, clean, a, b, 0, s, c, 0);
        if second is Done {
            assert(Seq::<char>::empty() + second->Done_out =~= second->Done_out);
        }
    } else {
        assert((a + b)[i] == a[i]);
        match step(s, a[i]) {
            Step::Next { state: s2, emit } => {
                let c2 = if s2 == clean {
                    i + 1
                } else {
                    c
                };
                lemma_dec_run_append(step, clean, a, b, i + 1, s2, c2);
                let first_rest = dec_run(step, clean, a, i + 1, s2, c2);
                let whole_rest = dec_run(step, clean, a + b, i + 1, s2, c2);
                if whole_rest is Done {
                    let emit_seq: Seq<char> = match emit {
                        Some(ch) => seq![ch],
                        None => Seq::empty(),
                    };
                    assert(emit_seq + (first_rest->Done_out + second->Done_out) =~= (emit_seq
                        + first_rest->Done_out) + second->Done_out);
                }
            },
            Step::Error { .. } => {},
        }
    }
}

/// Chunk-boundary invariance, proved once for every decoder of this
/// library: when a byte stream splits into two chunks and the whole stream
/// feeds without error, feeding the chunks in turn resolves the same
/// characters in the same order and leaves the same carry state as feeding
/// the stream whole.
pub proof fn lemma_dec_chunk_boundary<S>(
    step: spec_fn(S, u8) -> Step<S>,
    clean: S,
    s: S,
    a: Seq<u8>,
    b: Seq<u8>,
)
    requires
        dec_feed(step, clean, a + b, s) is Done,
    ensures
        dec_feed(step, clean, a, s) is Done,
        ({
            let whole = dec_feed(step, clean, a + b, s);
            let first = dec_feed(step, clean, a, s);
            let second = dec_feed(step, clean, b, first->Done_state);
            &&& second is Done
            &&& whole == (DecOutcome::<S>::Done {
                state: second->Done_state,
                out: first->Done_out + second->Done_out,
            })
        }),
{
    lemma_dec_run_prefix_done(step, clean, a, b, 0, s, 0);
    lemma_dec_run_append(step, clean, a, b, 0, s, 0);
}

/// The bytes an encoder emits for `input[i..end]` when every code point in
/// that range is mappable.
pub open spec fn enc_bytes(
    f: spec_fn(char) -> Option<Seq<u8>>,
    input: Seq<char>,
    i: int,
    end: int,
) -> Seq<u8>
    decreases end - i,
{
    if i < 0 || i >= end || end > input.len() {
        Seq::empty()
    } else {
        let here = match f(input[i]) {
            Some(bytes) => bytes,
            None => Seq::empty(),
        };
        here + enc_bytes(f, input, i + 1, end)
    }
}

proof fn lemma_enc_run_fault(
    f: spec_fn(char) -> Option<Seq<u8>>,
    input: Seq<char>,
    i: int,
    k: int,
)
    requires
        0 <= i <= k < input.len(),
        forall|j: int| i <= j < k ==> (#[trigger] f(input[j])) is Some,
        f(input[k]) is None,
    ensures
        enc_run(f, input, i) == (EncOutcome::Fault {
            consumed: k,
            upto: k + 1,
            out: enc_bytes(f, input, i, k),
        }),
    decreases k - i,
{
    if i == k {
    } else {
        lemma_enc_run_fault(f, input, i + 1, k);
    }
}

/// Error locality, proved once for every encoder of this library: a chunk
/// whose code points up to offset `k` are all mappable and whose code point
/// at `k` is not commits exactly the prefix's bytes and reports the fault
/// at `k`.
pub proof fn lemma_enc_error_locality(
    f: spec_fn(char) -> Option<Seq<u8>>,
    input: Seq<char>,
    k: int,
)
    requires
        0 <= k < input.len(),
        forall|j: int| 0 <= j < k ==> (#[trigger] f(input[j])) is Some,
        f(input[k]) is None,
    ensures
        enc_feed(f, input) == (EncOutcome::Fault {
            consumed: k,
            upto: k + 1,
            out: enc_bytes(f, input, 0, k),
        }),
{
    lemma_enc_run_fault(f, input, 0, k);
}

proof fn lemma_ascii_identity_gen<S>(
    f: spec_fn(char) -> Option<Seq<u8>>,
    step: spec_fn(S, u8) -> Step<S>,
    clean: S,
    text: Seq<char>,
    i: int,
)
    requires
        forall|c: char| c as u32 <= 0x7F ==> #[trigger] f(c) == Some(seq![((c as u32) as u8)]),
        forall|b: u8| b <= 0x7F ==> #[trigger] step(clean, b) == (Step::<S>::Next {
            state: clean,
            emit: Some(((b as u32) as char)),
        }),
        forall|j: int| 0 <= j < text.len() ==> (#[trigger] text[j]) as u32 <= 0x7F,
        0 <= i <= text.len(),
    ensures
        ({
            let e = enc_run(f, text, i);
            &&& e is Done
            &&& dec_feed(step, clean, e->Done_out, clean) == (DecOutcome::<S>::Done {
                state: clean,
                out: text.skip(i),
            })
        }),
    decreases text.len() - i,
{
    if i == text.len() {
        assert(text.skip(i) =~= Seq::<char>::empty());
    } else {
        let c = text[i];
        let bt: u8 = (c as u32) as u8;
        lemma_ascii_identity_gen(f, step, clean, text, i + 1);
        let rest = enc_run(f, text, i + 1);
        let out = seq![bt] + rest->Done_out;
        assert(enc_run(f, text, i) == (EncOutcome::Done { out }));
        assert(out[0] == bt);
        vstd::utf8::char_u32_cast(c, c as u32);
        assert(((bt as u32) as char) == c);
        assert(step(clean, bt) == (Step::<S>::Next { state: clean, emit: Some(c) }));
        lemma_dec_run_shift(step, clean, seq![bt], rest->Done_out, 0, clean, 1, 0);
        assert(seq![bt] + rest->Done_out =~= out);
        assert(dec_run(step, clean, out, 1, clean, 1) == (DecOutcome::<S>::Done {
            state: clean,
            out: text.skip(i + 1),
        }));
        assert(dec_feed(step, clean, out, clean) == (DecOutcome::<S>::Done {
            state: clean,
            out: seq![c] + text.skip(i + 1),
        }));
        assert(seq![c] + text.skip(i + 1) =~= text.skip(i));
    }
}

/// ASCII identity, proved once for every codec pair of this library: a text
/// of code points at or below 0x7F encodes without error to one byte per
/// code point, and decoding those bytes from the clean state resolves the
/// original text and ends clean.
pub proof fn lemma_ascii_identity<S>(
    f: spec_fn(char) -> Option<Seq<u8>>,
    step: spec_fn(S, u8) -> Step<S>,
    clean: S,
    text: Seq<char>,
)
    requires
        forall|c: char| c as u32 <= 0x7F ==> #[trigger] f(c) == Some(seq![((c as u32) as u8)]),
        forall|b: u8| b <= 0x7F ==> #[trigger] step(clean, b) == (Step::<S>::Next {
            state: clean,
            emit: Some(((b as u32) as char)),
        }),
        forall|j: int| 0 <= j < text.len() ==> (#[trigger] text[j]) as u32 <= 0x7F,
    ensures
        ({
            let e = enc_feed(f, text);
            &&& e is Done
            &&& dec_feed(step, clean, e->Done_out, clean) == (DecOutcome::<S>::Done {
                state: clean,
                out: text,
            })
        }),
{
    lemma_ascii_identity_gen(f, step, clean, text, 0);
    assert(text.skip(0) =~= text);
}

} // verus!
