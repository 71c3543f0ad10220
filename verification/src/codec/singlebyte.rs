//! Common codec implementation for single-byte encodings.
//!
//! A single-byte encoding is driven entirely by one forward/backward lookup
//! table: every byte resolves on its own, so the codecs carry no state
//! between feed calls.

use vstd::prelude::*;

use crate::stream::{
    dec_feed, dec_prepend, dec_run, enc_feed, enc_prepend, enc_run, lemma_ascii_identity,
    lemma_dec_chunk_boundary, lemma_dec_prepend_prepend, lemma_enc_prepend_prepend, DecOutcome,
    EncOutcome, Step,
};
use crate::tables::{ascii_char, iso_8859_2_backward, iso_8859_2_forward, scalar_to_char};
use crate::{CodecError, ErrorCause};

verus! {

use vstd::utf8::is_scalar;

/// The single-byte code pages whose lookup tables this library binds.
#[derive(Clone, Copy, PartialEq, Eq, Structural, Debug)]
pub enum SingleByteTable {
    /// The ISO-8859-2 (Latin-2) code page.
    Iso8859_2,
}

/// The table's forward map: code point for a high byte, 0xFFFF if unmapped.
pub open spec fn sb_forward(t: SingleByteTable, b: u8) -> u16 {
    match t {
        SingleByteTable::Iso8859_2 => iso_8859_2_forward(b),
    }
}

/// The table's backward map: encoded byte for a code point, 0 if unmapped.
pub open spec fn sb_backward(t: SingleByteTable, v: u32) -> u8 {
    match t {
        SingleByteTable::Iso8859_2 => iso_8859_2_backward(v),
    }
}

/// One transition of a single-byte decoder: every byte resolves on its own,
/// so the carry state is the table itself and never changes.
pub open spec fn sb_step(t: SingleByteTable, b: u8) -> Step<SingleByteTable> {
    if b <= 0x7F {
        Step::Next { state: t, emit: Some(((b as u32) as char)) }
    } else {
        let v = sb_forward(t, b);
        if v == 0xFFFF || !is_scalar(v as u32) {
            Step::Error { taken: true }
        } else {
            Step::Next { state: t, emit: Some(((v as u32) as char)) }
        }
    }
}

/// A single-byte decoder's transition function, as a value for [`dec_run`].
pub open spec fn sb_step_fn() -> spec_fn(SingleByteTable, u8) -> Step<SingleByteTable> {
    |t: SingleByteTable, b: u8| sb_step(t, b)
}

/// The byte a single-byte encoding assigns to one code point, or `None`
/// where the table has no mapping or the code point is beyond one 16-bit
/// unit.
pub open spec fn sb_encode_char(t: SingleByteTable, c: char) -> Option<Seq<u8>> {
    let v = c as u32;
    if v <= 0x7F {
        Some(seq![v as u8])
    } else if v <= 0xFFFF && sb_backward(t, v) != 0 {
        Some(seq![sb_backward(t, v)])
    } else {
        None
    }
}

/// A single-byte encoder's per-character function, as a value for
/// [`enc_run`].
pub open spec fn sb_encode_fn(t: SingleByteTable) -> spec_fn(char) -> Option<Seq<u8>> {
    |c: char| sb_encode_char(t, c)
}

/// Computes [`sb_forward`] by calling the page's table.
fn sb_forward_exec(t: SingleByteTable, b: u8) -> (r: u16)
    requires
        b >= 0x80,
    ensures
        r == sb_forward(t, b),
{
    match t {
        SingleByteTable::Iso8859_2 => encoding_index_singlebyte::iso_8859_2::forward(b),
    }
}

/// Computes [`sb_backward`] by calling the page's table.
fn sb_backward_exec(t: SingleByteTable, v: u32) -> (r: u8)
    ensures
        r == sb_backward(t, v),
{
    match t {
        SingleByteTable::Iso8859_2 => encoding_index_singlebyte::iso_8859_2::backward(v),
    }
}

/// Computes [`sb_step`] and proves the result equal to it.
fn sb_transition(t: SingleByteTable, b: u8) -> (r: Step<SingleByteTable>)
    ensures
        r == sb_step(t, b),
{
    if b <= 0x7F {
        let c = ascii_char(b);
        Step::Next { state: t, emit: Some(c) }
    } else {
        let v = sb_forward_exec(t, b);
        if v == 0xFFFF {
            Step::Error { taken: true }
        } else {
            match scalar_to_char(v as u32) {
                Some(c) => Step::Next { state: t, emit: Some(c) },
                None => Step::Error { taken: true },
            }
        }
    }
}

/// A single-byte encoding: a name and the lookup table that drives it.
#[derive(Clone, Copy)]
pub struct SingleByteEncoding {
    name: &'static str,
    table: SingleByteTable,
}

impl SingleByteEncoding {
    /// The encoding's registered name.
    pub closed spec fn spec_name(&self) -> Seq<char> {
        self.name@
    }

    /// The lookup table that drives the encoding.
    pub closed spec fn table(&self) -> SingleByteTable {
        self.table
    }

    /// Binds a name to a lookup table.
    pub fn new(name: &'static str, table: SingleByteTable) -> (r: SingleByteEncoding)
        ensures
            r.spec_name() == name@,
            r.table() == table,
    {
        SingleByteEncoding { name, table }
    }

    /// The encoding's registered name.
    pub fn name(&self) -> (r: &'static str)
        ensures
            r@ == self.spec_name(),
    {
        self.name
    }

    /// A fresh, stateless encoder for this code page.
    pub fn encoder(&self) -> (r: SingleByteEncoder)
        ensures
            r.spec_encoding() == *self,
    {
        SingleByteEncoder { encoding: *self }
    }

    /// A fresh, stateless decoder for this code page.
    pub fn decoder(&self) -> (r: SingleByteDecoder)
        ensures
            r.spec_encoding() == *self,
    {
        SingleByteDecoder { encoding: *self }
    }
}

/// Stateless streaming encoder into a single-byte code page.
#[derive(Clone, Copy)]
pub struct SingleByteEncoder {
    encoding: SingleByteEncoding,
}

impl SingleByteEncoder {
    /// The encoding this encoder belongs to.
    pub closed spec fn spec_encoding(&self) -> SingleByteEncoding {
        self.encoding
    }

    /// The lookup table that drives the encoder.
    pub open spec fn table(&self) -> SingleByteTable {
        self.spec_encoding().table()
    }

    /// The encoding this encoder belongs to.
    pub fn encoding(&self) -> (r: SingleByteEncoding)
        ensures
            r == self.spec_encoding(),
    {
        self.encoding
    }

    /// Translates `input` left to right, appending the byte of every
    /// translated code point to `output`. Stops at the first code point the
    /// page cannot express and reports it; code points before it are
    /// committed.
    #[verifier::loop_isolation(false)]
    pub fn raw_feed(&mut self, input: &[char], output: &mut Vec<u8>) -> (r: (
        usize,
        Option<CodecError>,
    ))
        ensures
            *final(self) == *old(self),
            ({
                let run = enc_feed(sb_encode_fn(old(self).table()), input@);
                match run {
                    EncOutcome::Done { out } => {
                        &&& final(output)@ == old(output)@ + out
                        &&& r.0 == input@.len()
                        &&& r.1 is None
                    },
                    EncOutcome::Fault { consumed, upto, out } => {
                        &&& final(output)@ == old(output)@ + out
                        &&& r.0 as int == consumed
                        &&& r.1 == Some(
                            (CodecError {
                                upto: upto as usize,
                                cause: ErrorCause::UnrepresentableCharacter,
                            }),
                        )
                    },
                }
            }),
    {
        let t = self.encoding.table;
        let ghost base = old(output)@;
        let mut i: usize = 0;
        while i < input.len()
            invariant
                i <= input@.len(),
                output@.len() >= base.len(),
                output@.subrange(0, base.len() as int) == base,
                enc_prepend(
                    output@.skip(base.len() as int),
                    enc_run(sb_encode_fn(t), input@, i as int),
                ) == enc_feed(sb_encode_fn(t), input@),
            decreases input@.len() - i,
        {
            let ghost emitted = output@.skip(base.len() as int);
            let ghost rest = enc_run(sb_encode_fn(t), input@, i + 1);
            let c = input[i];
            proof {
                assert(sb_encode_fn(t)(c) == sb_encode_char(t, c));
            }
            let ok = sb_encode_push(t, c, output);
            if !ok {
                proof {
                    assert(enc_run(sb_encode_fn(t), input@, i as int) == EncOutcome::Fault {
                        consumed: i as int,
                        upto: i + 1,
                        out: Seq::<u8>::empty(),
                    });
                    assert(emitted + Seq::<u8>::empty() =~= emitted);
                    assert(enc_feed(sb_encode_fn(t), input@) == EncOutcome::Fault {
                        consumed: i as int,
                        upto: i + 1,
                        out: emitted,
                    });
                    assert(output@ =~= base + emitted);
                }
                return (
                    i,
                    Some(CodecError { upto: i + 1, cause: ErrorCause::UnrepresentableCharacter }),
                );
            }
            proof {
                let bytes = sb_encode_char(t, c)->Some_0;
                assert(enc_run(sb_encode_fn(t), input@, i as int) == enc_prepend(bytes, rest));
                assert(output@.skip(base.len() as int) =~= emitted + bytes);
                lemma_enc_prepend_prepend(emitted, bytes, rest);
            }
            i = i + 1;
        }
        proof {
            let emitted = output@.skip(base.len() as int);
            assert(enc_run(sb_encode_fn(t), input@, i as int) == EncOutcome::Done {
                out: Seq::<u8>::empty(),
            });
            assert(emitted + Seq::<u8>::empty() =~= emitted);
            assert(enc_feed(sb_encode_fn(t), input@) == EncOutcome::Done { out: emitted });
            assert(output@ =~= base + emitted);
        }
        (i, None)
    }

    /// A single-byte encoder never holds carry state, so finishing appends
    /// nothing and never errors.
    pub fn raw_finish(&mut self, output: &mut Vec<u8>) -> (r: Option<CodecError>)
        ensures
            final(output)@ == old(output)@,
            r is None,
    {
        let _ = output;
        None
    }
}

/// Appends the page's byte for `c` to `output`; `false` with `output`
/// unchanged where the page cannot express `c`.
fn sb_encode_push(t: SingleByteTable, c: char, output: &mut Vec<u8>) -> (r: bool)
    ensures
        sb_encode_char(t, c) matches Some(bytes) ==> r && final(output)@ == old(output)@ + bytes,
        sb_encode_char(t, c) is None ==> !r && final(output)@ == old(output)@,
{
    let v = c as u32;
    if v <= 0x7F {
        output.push(v as u8);
        proof {
            assert(final(output)@ =~= old(output)@ + seq![v as u8]);
        }
        true
    } else if v <= 0xFFFF {
        let b = sb_backward_exec(t, v);
        if b != 0 {
            output.push(b);
            proof {
                assert(final(output)@ =~= old(output)@ + seq![b]);
            }
            true
        } else {
            false
        }
    } else {
        false
    }
}

/// Stateless streaming decoder from a single-byte code page.
#[derive(Clone, Copy)]
pub struct SingleByteDecoder {
    encoding: SingleByteEncoding,
}

impl SingleByteDecoder {
    /// The encoding this decoder belongs to.
    pub closed spec fn spec_encoding(&self) -> SingleByteEncoding {
        self.encoding
    }

    /// The lookup table that drives the decoder.
    pub open spec fn table(&self) -> SingleByteTable {
        self.spec_encoding().table()
    }

    /// The encoding this decoder belongs to.
    pub fn encoding(&self) -> (r: SingleByteEncoding)
        ensures
            r == self.spec_encoding(),
    {
        self.encoding
    }

    /// Translates `input` left to right, appending the character of every
    /// translated byte to `output`. Stops at the first unmapped high byte
    /// and reports it; bytes before it are committed.
    #[verifier::loop_isolation(false)]
    pub fn raw_feed(&mut self, input: &[u8], output: &mut Vec<char>) -> (r: (
        usize,
        Option<CodecError>,
    ))
        ensures
            *final(self) == *old(self),
            ({
                let run = dec_feed(sb_step_fn(), old(self).table(), input@, old(self).table());
                match run {
                    DecOutcome::Done { state, out } => {
                        &&& final(output)@ == old(output)@ + out
                        &&& r.0 == input@.len()
                        &&& r.1 is None
                    },
                    DecOutcome::Fault { consumed, upto, out } => {
                        &&& final(output)@ == old(output)@ + out
                        &&& r.0 as int == consumed
                        &&& r.1 == Some(
                            (CodecError { upto: upto as usize, cause: ErrorCause::InvalidSequence }),
                        )
                    },
                }
            }),
    {
        let t = self.encoding.table;
        let ghost base = old(output)@;
        let mut i: usize = 0;
        let mut committed: usize = 0;
        while i < input.len()
            invariant
                i <= input@.len(),
                committed <= i,
                output@.len() >= base.len(),
                output@.subrange(0, base.len() as int) == base,
                dec_prepend(
                    output@.skip(base.len() as int),
                    dec_run(sb_step_fn(), t, input@, i as int, t, committed as int),
                ) == dec_feed(sb_step_fn(), t, input@, t),
            decreases input@.len() - i,
        {
            let ghost emitted = output@.skip(base.len() as int);
            let b = input[i];
            proof {
                assert(sb_step_fn()(t, b) == sb_step(t, b));
            }
            let step = sb_transition(t, b);
            match step {
                Step::Next { state: s2, emit } => {
                    let ghost c2: int = if s2 == t {
                        i + 1
                    } else {
                        committed as int
                    };
                    let ghost rest = dec_run(sb_step_fn(), t, input@, i + 1, s2, c2);
                    let ghost emit_seq: Seq<char> = match emit {
                        Some(c) => seq![c],
                        None => Seq::empty(),
                    };
                    proof {
                        assert(s2 == t);
                        assert(dec_run(sb_step_fn(), t, input@, i as int, t, committed as int)
                            == dec_prepend(emit_seq, rest));
                        lemma_dec_prepend_prepend(emitted, emit_seq, rest);
                    }
                    match emit {
                        Some(c) => {
                            output.push(c);
                            proof {
                                assert(output@.skip(base.len() as int) =~= emitted + emit_seq);
                                assert(output@.subrange(0, base.len() as int) =~= base);
                            }
                        },
                        None => {
                            proof {
                                assert(emitted + emit_seq =~= emitted);
                            }
                        },
                    }
                    i = i + 1;
                    committed = i;
                },
                Step::Error { taken } => {
                    proof {
                        assert(dec_run(sb_step_fn(), t, input@, i as int, t, committed as int)
                            == DecOutcome::<SingleByteTable>::Fault {
                            consumed: committed as int,
                            upto: if taken {
                                i + 1
                            } else {
                                i as int
                            },
                            out: Seq::<char>::empty(),
                        });
                        assert(emitted + Seq::<char>::empty() =~= emitted);
                        assert(dec_feed(sb_step_fn(), t, input@, t)
                            == DecOutcome::<SingleByteTable>::Fault {
                            consumed: committed as int,
                            upto: if taken {
                                i + 1
                            } else {
                                i as int
                            },
                            out: emitted,
                        });
                        assert(output@ =~= base + emitted);
                    }
                    let upto = if taken {
                        i + 1
                    } else {
                        i
                    };
                    return (committed, Some(CodecError { upto, cause: ErrorCause::InvalidSequence }));
                },
            }
        }
        proof {
            let emitted = output@.skip(base.len() as int);
            assert(dec_run(sb_step_fn(), t, input@, i as int, t, committed as int)
                == DecOutcome::<SingleByteTable>::Done { state: t, out: Seq::<char>::empty() });
            assert(emitted + Seq::<char>::empty() =~= emitted);
            assert(dec_feed(sb_step_fn(), t, input@, t) == DecOutcome::<SingleByteTable>::Done {
                state: t,
                out: emitted,
            });
            assert(output@ =~= base + emitted);
        }
        (i, None)
    }

    /// A single-byte decoder never holds carry state, so finishing appends
    /// nothing and never errors.
    pub fn raw_finish(&mut self, output: &mut Vec<char>) -> (r: Option<CodecError>)
        ensures
            final(output)@ == old(output)@,
            r is None,
    {
        let _ = output;
        None
    }
}

/// ASCII identity for every single-byte codec pair: text at or below 0x7F
/// encodes to the same byte values and decodes back to the original text,
/// whichever table drives the page.
pub proof fn lemma_singlebyte_ascii_identity(t: SingleByteTable, text: Seq<char>)
    requires
        forall|j: int| 0 <= j < text.len() ==> (#[trigger] text[j]) as u32 <= 0x7F,
    ensures
        ({
            let e = enc_feed(sb_encode_fn(t), text);
            &&& e is Done
            &&& dec_feed(sb_step_fn(), t, e->Done_out, t) == (DecOutcome::<SingleByteTable>::Done {
                state: t,
                out: text,
            })
        }),
{
    assert forall|c: char| c as u32 <= 0x7F implies #[trigger] sb_encode_fn(t)(c) == Some(
        seq![((c as u32) as u8)],
    ) by {
        assert(sb_encode_char(t, c) == Some(seq![((c as u32) as u8)]));
    }
    assert forall|b: u8| b <= 0x7F implies #[trigger] sb_step_fn()(t, b)
        == (Step::<SingleByteTable>::Next { state: t, emit: Some(((b as u32) as char)) }) by {
        assert(sb_step(t, b) == (Step::<SingleByteTable>::Next {
            state: t,
            emit: Some(((b as u32) as char)),
        }));
    }
    lemma_ascii_identity(sb_encode_fn(t), sb_step_fn(), t, text);
}

/// Chunk-boundary invariance for every single-byte decoder: a valid byte
/// stream split anywhere and fed as two chunks resolves the same
/// characters as the whole stream fed at once.
pub proof fn lemma_singlebyte_chunk_boundary(t: SingleByteTable, a: Seq<u8>, b: Seq<u8>)
    requires
        dec_feed(sb_step_fn(), t, a + b, t) is Done,
    ensures
        dec_feed(sb_step_fn(), t, a, t) is Done,
        ({
            let whole = dec_feed(sb_step_fn(), t, a + b, t);
            let first = dec_feed(sb_step_fn(), t, a, t);
            let second = dec_feed(sb_step_fn(), t, b, first->Done_state);
            &&& second is Done
            &&& whole == (DecOutcome::<SingleByteTable>::Done {
                state: second->Done_state,
                out: first->Done_out + second->Done_out,
            })
        }),
{
    lemma_dec_chunk_boundary(sb_step_fn(), t, t, a, b);
}

} // verus!
