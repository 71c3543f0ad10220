//! Legacy Japanese encodings based on JIS X 0208 and JIS X 0212.

use vstd::prelude::*;

use crate::stream::{
    dec_feed, dec_prepend, dec_run, enc_feed, enc_prepend, enc_run, lemma_ascii_identity,
    lemma_dec_chunk_boundary, lemma_dec_prepend_prepend, lemma_enc_prepend_prepend, DecOutcome,
    EncOutcome, Step,
};
use crate::tables::{ascii_char, jis0208_backward, jis0208_forward, jis0212_forward, scalar_to_char};
use crate::{CodecError, ErrorCause};

verus! {

use vstd::utf8::is_scalar;

/// Carry state of the EUC-JP decoder: which bytes of an unfinished
/// multi-byte sequence were consumed but not yet resolved.
#[derive(Clone, Copy, PartialEq, Eq, Structural, Debug)]
pub enum EucjpState {
    /// No partial sequence is pending.
    Clean,
    /// The 0x8E shift byte was consumed; a half-width katakana byte is due.
    Katakana,
    /// The 0x8F shift byte was consumed; two JIS X 0212 bytes are due.
    ExtLead,
    /// A JIS X 0208 lead byte was consumed; its trail byte is due.
    Lead(u8),
    /// The 0x8F shift and the first JIS X 0212 byte were consumed.
    ExtMid(u8),
}

/// One transition of the EUC-JP decoder.
///
/// A pending byte stored in `Lead` or `ExtMid` always lies in 0xA1–0xFE;
/// for totality, a transition from a pending byte outside that range is
/// defined to fail without taking the new byte in.
pub open spec fn eucjp_step(s: EucjpState, b: u8) -> Step<EucjpState> {
    match s {
        EucjpState::Clean => {
            if b <= 0x7F {
                Step::Next { state: EucjpState::Clean, emit: Some(((b as u32) as char)) }
            } else if b == 0x8E {
                Step::Next { state: EucjpState::Katakana, emit: None }
            } else if b == 0x8F {
                Step::Next { state: EucjpState::ExtLead, emit: None }
            } else if 0xA1 <= b && b <= 0xFE {
                Step::Next { state: EucjpState::Lead(b), emit: None }
            } else {
                Step::Error { taken: true }
            }
        },
        EucjpState::Katakana => {
            if 0xA1 <= b && b <= 0xDF {
                Step::Next {
                    state: EucjpState::Clean,
                    emit: Some((((0xFF61 + b - 0xA1) as u32) as char)),
                }
            } else {
                Step::Error { taken: 0xA1 <= b && b <= 0xFE }
            }
        },
        EucjpState::ExtLead => {
            if 0xA1 <= b && b <= 0xFE {
                Step::Next { state: EucjpState::ExtMid(b), emit: None }
            } else {
                Step::Error { taken: false }
            }
        },
        EucjpState::Lead(l) => {
            if !(0xA1 <= l && l <= 0xFE) {
                Step::Error { taken: false }
            } else if 0xA1 <= b && b <= 0xFE {
                let v = jis0208_forward(((l - 0xA1) * 94 + (b - 0xA1)) as u16);
                if v == 0xFFFF || !is_scalar(v) {
                    Step::Error { taken: true }
                } else {
                    Step::Next { state: EucjpState::Clean, emit: Some((v as char)) }
                }
            } else {
                Step::Error { taken: false }
            }
        },
        EucjpState::ExtMid(m) => {
            if !(0xA1 <= m && m <= 0xFE) {
                Step::Error { taken: false }
            } else if 0xA1 <= b && b <= 0xFE {
                let v = jis0212_forward(((m - 0xA1) * 94 + (b - 0xA1)) as u16);
                if v == 0xFFFF || !is_scalar(v) {
                    Step::Error { taken: true }
                } else {
                    Step::Next { state: EucjpState::Clean, emit: Some((v as char)) }
                }
            } else {
                Step::Error { taken: false }
            }
        },
    }
}

/// The EUC-JP decoder's transition function, as a value for [`dec_run`].
pub open spec fn eucjp_step_fn() -> spec_fn(EucjpState, u8) -> Step<EucjpState> {
    |s: EucjpState, b: u8| eucjp_step(s, b)
}

/// The bytes EUC-JP assigns to one code point, or `None` where it has none.
/// Only JIS X 0208 is encodable; a matrix pointer outside the 94 by 94
/// matrix cannot be expressed in EUC-JP and counts as unmapped.
pub open spec fn eucjp_encode_char(c: char) -> Option<Seq<u8>> {
    let v = c as u32;
    if v <= 0x7F {
        Some(seq![v as u8])
    } else if v == 0xA5 {
        Some(seq![0x5Cu8])
    } else if v == 0x203E {
        Some(seq![0x7Eu8])
    } else if 0xFF61 <= v && v <= 0xFF9F {
        Some(seq![0x8Eu8, (v - 0xFF61 + 0xA1) as u8])
    } else {
        let ptr = jis0208_backward(v);
        if ptr == 0xFFFF || ptr >= 8836 {
            None
        } else {
            Some(seq![(0xA1 + ptr / 94) as u8, (0xA1 + ptr % 94) as u8])
        }
    }
}

/// The EUC-JP encoder's per-character function, as a value for [`enc_run`].
pub open spec fn eucjp_encode_fn() -> spec_fn(char) -> Option<Seq<u8>> {
    |c: char| eucjp_encode_char(c)
}

/// Computes [`eucjp_step`] and proves the result equal to it.
fn eucjp_transition(s: EucjpState, b: u8) -> (r: Step<EucjpState>)
    ensures
        r == eucjp_step(s, b),
{
    match s {
        EucjpState::Clean => {
            if b <= 0x7F {
                let c = ascii_char(b);
                Step::Next { state: EucjpState::Clean, emit: Some(c) }
            } else if b == 0x8E {
                Step::Next { state: EucjpState::Katakana, emit: None }
            } else if b == 0x8F {
                Step::Next { state: EucjpState::ExtLead, emit: None }
            } else if 0xA1 <= b && b <= 0xFE {
                Step::Next { state: EucjpState::Lead(b), emit: None }
            } else {
                Step::Error { taken: true }
            }
        },
        EucjpState::Katakana => {
            if 0xA1 <= b && b <= 0xDF {
                let v: u32 = 0xFF61 + (b as u32) - 0xA1;
                match scalar_to_char(v) {
                    Some(c) => Step::Next { state: EucjpState::Clean, emit: Some(c) },
                    None => vstd::pervasive::unreached(),
                }
            } else {
                Step::Error { taken: 0xA1 <= b && b <= 0xFE }
            }
        },
        EucjpState::ExtLead => {
            if 0xA1 <= b && b <= 0xFE {
                Step::Next { state: EucjpState::ExtMid(b), emit: None }
            } else {
                Step::Error { taken: false }
            }
        },
        EucjpState::Lead(l) => {
            if !(0xA1 <= l && l <= 0xFE) {
                Step::Error { taken: false }
            } else if 0xA1 <= b && b <= 0xFE {
                let ptr: u16 = ((l - 0xA1) as u16) * 94 + ((b - 0xA1) as u16);
                let v = encoding_index_japanese::jis0208::forward(ptr);
                if v == 0xFFFF {
                    Step::Error { taken: true }
                } else {
                    match scalar_to_char(v) {
                        Some(c) => Step::Next { state: EucjpState::Clean, emit: Some(c) },
                        None => Step::Error { taken: true },
                    }
                }
            } else {
                Step::Error { taken: false }
            }
        },
        EucjpState::ExtMid(m) => {
            if !(0xA1 <= m && m <= 0xFE) {
                Step::Error { taken: false }
            } else if 0xA1 <= b && b <= 0xFE {
                let ptr: u16 = ((m - 0xA1) as u16) * 94 + ((b - 0xA1) as u16);
                let v = encoding_index_japanese::jis0212::forward(ptr);
                if v == 0xFFFF {
                    Step::Error { taken: true }
                } else {
                    match scalar_to_char(v) {
                        Some(c) => Step::Next { state: EucjpState::Clean, emit: Some(c) },
                        None => Step::Error { taken: true },
                    }
                }
            } else {
                Step::Error { taken: false }
            }
        },
    }
}

/// The EUC-JP encoding: a name and factories for fresh codec instances.
#[derive(Clone, Copy)]
pub struct EUCJPEncoding;

impl EUCJPEncoding {
    /// The encoding's registered name.
    pub fn name(&self) -> (r: &'static str)
        ensures
            r@ == "euc-jp"@,
    {
        "euc-jp"
    }

    /// A fresh, stateless EUC-JP encoder.
    pub fn encoder(&self) -> EUCJPEncoder {
        EUCJPEncoder
    }

    /// A fresh EUC-JP decoder with empty carry state.
    pub fn decoder(&self) -> (r: EUCJPDecoder)
        ensures
            r.carry() == EucjpState::Clean,
    {
        EUCJPDecoder { state: EucjpState::Clean }
    }
}

/// Stateless streaming encoder into EUC-JP.
#[derive(Clone, Copy)]
pub struct EUCJPEncoder;

impl EUCJPEncoder {
    /// The encoding this encoder belongs to.
    pub fn encoding(&self) -> EUCJPEncoding {
        EUCJPEncoding
    }

    /// Translates `input` left to right, appending the bytes of every
    /// translated code point to `output`. Stops at the first code point
    /// EUC-JP cannot express and reports it; code points before it are
    /// committed.
    pub fn raw_feed(&mut self, input: &[char], output: &mut Vec<u8>) -> (r: (
        usize,
        Option<CodecError>,
    ))
        ensures
            ({
                let run = enc_feed(eucjp_encode_fn(), input@);
                match run {
                    EncOutcome::Done { out } => {
                        &&& final(output)@ == old(output)@ + out
                        &&& r.0 == input@.len()
                        &&& r.1 is None
                    },
                    EncOutcome::Fault { consumed, upto, out } => {
                        &&& final(output)@ == old(output)@ + out
                        &&& r.0 as int == consumed
                        &&& r.1 == Some(
                            (CodecError {
                                upto: upto as usize,
                                cause: ErrorCause::UnrepresentableCharacter,
                            }),
                        )
                    },
                }
            }),
    {
        eucjp_encode_loop(input, output)
    }

    /// An EUC-JP encoder never holds carry state, so finishing appends
    /// nothing and never errors.
    pub fn raw_finish(&mut self, output: &mut Vec<u8>) -> (r: Option<CodecError>)
        ensures
            final(output)@ == old(output)@,
            r is None,
    {
        let _ = output;
        None
    }
}

/// Appends the EUC-JP bytes of `c` to `output`; `false` with `output`
/// unchanged where EUC-JP cannot express `c`.
fn eucjp_encode_push(c: char, output: &mut Vec<u8>) -> (r: bool)
    ensures
        eucjp_encode_char(c) matches Some(bytes) ==> r && final(output)@ == old(output)@ + bytes,
        eucjp_encode_char(c) is None ==> !r && final(output)@ == old(output)@,
{
    let v = c as u32;
    if v <= 0x7F {
        output.push(v as u8);
        proof {
            assert(final(output)@ =~= old(output)@ + seq![v as u8]);
        }
        true
    } else if v == 0xA5 {
        output.push(0x5C);
        proof {
            assert(final(output)@ =~= old(output)@ + seq![0x5Cu8]);
        }
        true
    } else if v == 0x203E {
        output.push(0x7E);
        proof {
            assert(final(output)@ =~= old(output)@ + seq![0x7Eu8]);
        }
        true
    } else if 0xFF61 <= v && v <= 0xFF9F {
        output.push(0x8E);
        output.push((v - 0xFF61 + 0xA1) as u8);
        proof {
            assert(final(output)@ =~= old(output)@ + seq![0x8Eu8, (v - 0xFF61 + 0xA1) as u8]);
        }
        true
    } else {
        let ptr = encoding_index_japanese::jis0208::backward(v);
        if ptr == 0xFFFF || ptr >= 8836 {
            false
        } else {
            let lead = (0xA1 + ptr / 94) as u8;
            let trail = (0xA1 + ptr % 94) as u8;
            output.push(lead);
            output.push(trail);
            proof {
                assert(final(output)@ =~= old(output)@ + seq![lead, trail]);
            }
            true
        }
    }
}

/// The encoder's feed loop, shared by [`EUCJPEncoder::raw_feed`].
#[verifier::loop_isolation(false)]
fn eucjp_encode_loop(input: &[char], output: &mut Vec<u8>) -> (r: (usize, Option<CodecError>))
    ensures
        ({
            let run = enc_feed(eucjp_encode_fn(), input@);
            match run {
                EncOutcome::Done { out } => {
                    &&& final(output)@ == old(output)@ + out
                    &&& r.0 == input@.len()
                    &&& r.1 is None
                },
                EncOutcome::Fault { consumed, upto, out } => {
                    &&& final(output)@ == old(output)@ + out
                    &&& r.0 as int == consumed
                    &&& r.1 == Some(
                        (CodecError {
                            upto: upto as usize,
                            cause: ErrorCause::UnrepresentableCharacter,
                        }),
                    )
                },
            }
        }),
{
    let ghost base = old(output)@;
    let mut i: usize = 0;
    while i < input.len()
        invariant
            i <= input@.len(),
            output@.len() >= base.len(),
            output@.subrange(0, base.len() as int) == base,
            enc_prepend(
                output@.skip(base.len() as int),
                enc_run(eucjp_encode_fn(), input@, i as int),
            ) == enc_feed(eucjp_encode_fn(), input@),
        decreases input@.len() - i,
    {
        let ghost emitted = output@.skip(base.len() as int);
        let ghost rest = enc_run(eucjp_encode_fn(), input@, i + 1);
        let c = input[i];
        proof {
            assert(eucjp_encode_fn()(c) == eucjp_encode_char(c));
        }
        let ok = eucjp_encode_push(c, output);
        if !ok {
            proof {
                assert(enc_run(eucjp_encode_fn(), input@, i as int) == EncOutcome::Fault {
                    consumed: i as int,
                    upto: i + 1,
                    out: Seq::<u8>::empty(),
                });
                assert(emitted + Seq::<u8>::empty() =~= emitted);
                assert(enc_feed(eucjp_encode_fn(), input@) == EncOutcome::Fault {
                    consumed: i as int,
                    upto: i + 1,
                    out: emitted,
                });
                assert(output@ =~= base + emitted);
            }
            return (
                i,
                Some(CodecError { upto: i + 1, cause: ErrorCause::UnrepresentableCharacter }),
            );
        }
        proof {
            let bytes = eucjp_encode_char(c)->Some_0;
            assert(enc_run(eucjp_encode_fn(), input@, i as int) == enc_prepend(bytes, rest));
            assert(output@.skip(base.len() as int) =~= emitted + bytes);
            lemma_enc_prepend_prepend(emitted, bytes, rest);
        }
        i = i + 1;
    }
    proof {
        let emitted = output@.skip(base.len() as int);
        assert(enc_run(eucjp_encode_fn(), input@, i as int) == EncOutcome::Done {
            out: Seq::<u8>::empty(),
        });
        assert(emitted + Seq::<u8>::empty() =~= emitted);
        assert(enc_feed(eucjp_encode_fn(), input@) == EncOutcome::Done { out: emitted });
        assert(output@ =~= base + emitted);
    }
    (i, None)
}

/// Streaming decoder from EUC-JP, carrying up to two pending bytes.
#[derive(Clone, Copy)]
pub struct EUCJPDecoder {
    state: EucjpState,
}

impl EUCJPDecoder {
    /// The encoding this decoder belongs to.
    pub fn encoding(&self) -> EUCJPEncoding {
        EUCJPEncoding
    }

    /// The carry state: which bytes of an unfinished sequence are pending.
    pub closed spec fn carry(&self) -> EucjpState {
        self.state
    }

    /// Translates `input` left to right, resuming any sequence carried from
    /// the last call, appending every resolved character to `output`, and
    /// carrying a trailing partial sequence. On an invalid sequence it
    /// reports the committed count and the fault offset and clears the
    /// carry.
    #[verifier::loop_isolation(false)]
    pub fn raw_feed(&mut self, input: &[u8], output: &mut Vec<char>) -> (r: (
        usize,
        Option<CodecError>,
    ))
        ensures
            ({
                let run = dec_feed(eucjp_step_fn(), EucjpState::Clean, input@, old(self).carry());
                match run {
                    DecOutcome::Done { state, out } => {
                        &&& final(self).carry() == state
                        &&& final(output)@ == old(output)@ + out
                        &&& r.0 == input@.len()
                        &&& r.1 is None
                    },
                    DecOutcome::Fault { consumed, upto, out } => {
                        &&& final(self).carry() == EucjpState::Clean
                        &&& final(output)@ == old(output)@ + out
                        &&& r.0 as int == consumed
                        &&& r.1 == Some(
                            (CodecError { upto: upto as usize, cause: ErrorCause::InvalidSequence }),
                        )
                    },
                }
            }),
    {
        let ghost s0 = self.state;
        let ghost base = old(output)@;
        let mut i: usize = 0;
        let mut committed: usize = 0;
        while i < input.len()
            invariant
                i <= input@.len(),
                committed <= i,
                output@.len() >= base.len(),
                output@.subrange(0, base.len() as int) == base,
                dec_prepend(
                    output@.skip(base.len() as int),
                    dec_run(
                        eucjp_step_fn(),
                        EucjpState::Clean,
                        input@,
                        i as int,
                        self.state,
                        committed as int,
                    ),
                ) == dec_feed(eucjp_step_fn(), EucjpState::Clean, input@, s0),
            decreases input@.len() - i,
        {
            let ghost emitted = output@.skip(base.len() as int);
            let b = input[i];
            proof {
                assert(eucjp_step_fn()(self.state, b) == eucjp_step(self.state, b));
            }
            let t = eucjp_transition(self.state, b);
            match t {
                Step::Next { state: s2, emit } => {
                    let ghost c2: int = if s2 == EucjpState::Clean {
                        i + 1
                    } else {
                        committed as int
                    };
                    let ghost rest = dec_run(
                        eucjp_step_fn(),
                        EucjpState::Clean,
                        input@,
                        i + 1,
                        s2,
                        c2,
                    );
                    let ghost emit_seq: Seq<char> = match emit {
                        Some(c) => seq![c],
                        None => Seq::empty(),
                    };
                    proof {
                        assert(dec_run(
                            eucjp_step_fn(),
                            EucjpState::Clean,
                            input@,
                            i as int,
                            self.state,
                            committed as int,
                        ) == dec_prepend(emit_seq, rest));
                        lemma_dec_prepend_prepend(emitted, emit_seq, rest);
                    }
                    self.state = s2;
                    match emit {
                        Some(c) => {
                            output.push(c);
                            proof {
                                assert(output@.skip(base.len() as int) =~= emitted + emit_seq);
                                assert(output@.subrange(0, base.len() as int) =~= base);
                            }
                        },
                        None => {
                            proof {
                                assert(emitted + emit_seq =~= emitted);
                            }
                        },
                    }
                    i = i + 1;
                    if self.state == EucjpState::Clean {
                        committed = i;
                    }
                },
                Step::Error { taken } => {
                    proof {
                        assert(dec_run(
                            eucjp_step_fn(),
                            EucjpState::Clean,
                            input@,
                            i as int,
                            self.state,
                            committed as int,
                        ) == DecOutcome::<EucjpState>::Fault {
                            consumed: committed as int,
                            upto: if taken {
                                i + 1
                            } else {
                                i as int
                            },
                            out: Seq::<char>::empty(),
                        });
                        assert(emitted + Seq::<char>::empty() =~= emitted);
                        assert(dec_feed(eucjp_step_fn(), EucjpState::Clean, input@, s0)
                            == DecOutcome::<EucjpState>::Fault {
                            consumed: committed as int,
                            upto: if taken {
                                i + 1
                            } else {
                                i as int
                            },
                            out: emitted,
                        });
                        assert(output@ =~= base + emitted);
                    }
                    self.state = EucjpState::Clean;
                    let upto = if taken {
                        i + 1
                    } else {
                        i
                    };
                    return (committed, Some(CodecError { upto, cause: ErrorCause::InvalidSequence }));
                },
            }
        }
        proof {
            let emitted = output@.skip(base.len() as int);
            assert(dec_run(
                eucjp_step_fn(),
                EucjpState::Clean,
                input@,
                i as int,
                self.state,
                committed as int,
            ) == DecOutcome::<EucjpState>::Done { state: self.state, out: Seq::<char>::empty() });
            assert(emitted + Seq::<char>::empty() =~= emitted);
            assert(dec_feed(eucjp_step_fn(), EucjpState::Clean, input@, s0)
                == DecOutcome::<EucjpState>::Done { state: self.state, out: emitted });
            assert(output@ =~= base + emitted);
        }
        (i, None)
    }

    /// Reports a multi-byte sequence left dangling at end of input: an
    /// error exactly when carry state is pending. Appends nothing.
    pub fn raw_finish(&mut self, output: &mut Vec<char>) -> (r: Option<CodecError>)
        ensures
            final(output)@ == old(output)@,
            *final(self) == *old(self),
            old(self).carry() == EucjpState::Clean ==> r is None,
            old(self).carry() != EucjpState::Clean ==> r == Some(
                (CodecError { upto: 0, cause: ErrorCause::IncompleteSequence }),
            ),
    {
        let _ = output;
        if self.state == EucjpState::Clean {
            None
        } else {
            Some(CodecError { upto: 0, cause: ErrorCause::IncompleteSequence })
        }
    }
}

/// Carry state of the Shift-JIS decoder.
#[derive(Clone, Copy, PartialEq, Eq, Structural, Debug)]
pub enum SjisState {
    /// No partial sequence is pending.
    Clean,
    /// A two-byte lead was consumed; its trail byte is due.
    Lead(u8),
}

/// One transition of the Shift-JIS decoder.
///
/// A pending byte stored in `Lead` always lies in the lead ranges
/// 0x81-0x9F and 0xE0-0xFC; for totality, a transition from a pending byte
/// outside them is defined to fail without taking the new byte in.
pub open spec fn sjis_step(s: SjisState, b: u8) -> Step<SjisState> {
    match s {
        SjisState::Clean => {
            if b <= 0x7F {
                Step::Next { state: SjisState::Clean, emit: Some(((b as u32) as char)) }
            } else if 0xA1 <= b && b <= 0xDF {
                Step::Next {
                    state: SjisState::Clean,
                    emit: Some((((0xFF61 + b - 0xA1) as u32) as char)),
                }
            } else if (0x81 <= b && b <= 0x9F) || (0xE0 <= b && b <= 0xFC) {
                Step::Next { state: SjisState::Lead(b), emit: None }
            } else {
                Step::Error { taken: true }
            }
        },
        SjisState::Lead(l) => {
            if !((0x81 <= l && l <= 0x9F) || (0xE0 <= l && l <= 0xFC)) {
                Step::Error { taken: false }
            } else if (0x40 <= b && b <= 0x7E) || (0x80 <= b && b <= 0xFC) {
                let leadoffset: u8 = if l < 0xA0 { 0x81 } else { 0xC1 };
                let trailoffset: u8 = if b < 0x7F { 0x40 } else { 0x41 };
                let v = jis0208_forward(((l - leadoffset) * 188 + (b - trailoffset)) as u16);
                if v == 0xFFFF || !is_scalar(v) {
                    Step::Error { taken: false }
                } else {
                    Step::Next { state: SjisState::Clean, emit: Some((v as char)) }
                }
            } else {
                Step::Error { taken: false }
            }
        },
    }
}

/// The Shift-JIS decoder's transition function, as a value for [`dec_run`].
pub open spec fn sjis_step_fn() -> spec_fn(SjisState, u8) -> Step<SjisState> {
    |s: SjisState, b: u8| sjis_step(s, b)
}

/// The bytes Shift-JIS assigns to one code point, or `None` where it has
/// none. U+0080 passes through as a raw byte. A matrix pointer at or above
/// 60 rows of 188 cannot be packed into a two-byte unit and counts as
/// unmapped.
pub open spec fn sjis_encode_char(c: char) -> Option<Seq<u8>> {
    let v = c as u32;
    if v <= 0x80 {
        Some(seq![v as u8])
    } else if v == 0xA5 {
        Some(seq![0x5Cu8])
    } else if v == 0x203E {
        Some(seq![0x7Eu8])
    } else if 0xFF61 <= v && v <= 0xFF9F {
        Some(seq![(v - 0xFF61 + 0xA1) as u8])
    } else {
        let ptr = jis0208_backward(v);
        if ptr == 0xFFFF || ptr >= 11280 {
            None
        } else {
            let lead = ptr / 188;
            let leadoffset: u16 = if lead < 0x1F { 0x81 } else { 0xC1 };
            let trail = ptr % 188;
            let trailoffset: u16 = if trail < 0x3F { 0x40 } else { 0x41 };
            Some(seq![(lead + leadoffset) as u8, (trail + trailoffset) as u8])
        }
    }
}

/// The Shift-JIS encoder's per-character function, as a value for
/// [`enc_run`].
pub open spec fn sjis_encode_fn() -> spec_fn(char) -> Option<Seq<u8>> {
    |c: char| sjis_encode_char(c)
}

/// Computes [`sjis_step`] and proves the result equal to it.
fn sjis_transition(s: SjisState, b: u8) -> (r: Step<SjisState>)
    ensures
        r == sjis_step(s, b),
{
    match s {
        SjisState::Clean => {
            if b <= 0x7F {
                let c = ascii_char(b);
                Step::Next { state: SjisState::Clean, emit: Some(c) }
            } else if 0xA1 <= b && b <= 0xDF {
                let v: u32 = 0xFF61 + (b as u32) - 0xA1;
                match scalar_to_char(v) {
                    Some(c) => Step::Next { state: SjisState::Clean, emit: Some(c) },
                    None => vstd::pervasive::unreached(),
                }
            } else if (0x81 <= b && b <= 0x9F) || (0xE0 <= b && b <= 0xFC) {
                Step::Next { state: SjisState::Lead(b), emit: None }
            } else {
                Step::Error { taken: true }
            }
        },
        SjisState::Lead(l) => {
            if !((0x81 <= l && l <= 0x9F) || (0xE0 <= l && l <= 0xFC)) {
                Step::Error { taken: false }
            } else if (0x40 <= b && b <= 0x7E) || (0x80 <= b && b <= 0xFC) {
                let leadoffset: u8 = if l < 0xA0 { 0x81 } else { 0xC1 };
                let trailoffset: u8 = if b < 0x7F { 0x40 } else { 0x41 };
                let ptr: u16 = ((l - leadoffset) as u16) * 188 + ((b - trailoffset) as u16);
                let v = encoding_index_japanese::jis0208::forward(ptr);
                if v == 0xFFFF {
                    Step::Error { taken: false }
                } else {
                    match scalar_to_char(v) {
                        Some(c) => Step::Next { state: SjisState::Clean, emit: Some(c) },
                        None => Step::Error { taken: false },
                    }
                }
            } else {
                Step::Error { taken: false }
            }
        },
    }
}

/// The Shift-JIS encoding: a name and factories for fresh codec instances.
#[derive(Clone, Copy)]
pub struct ShiftJISEncoding;

impl ShiftJISEncoding {
    /// The encoding's registered name.
    pub fn name(&self) -> (r: &'static str)
        ensures
            r@ == "shift-jis"@,
    {
        "shift-jis"
    }

    /// A fresh, stateless Shift-JIS encoder.
    pub fn encoder(&self) -> ShiftJISEncoder {
        ShiftJISEncoder
    }

    /// A fresh Shift-JIS decoder with empty carry state.
    pub fn decoder(&self) -> (r: ShiftJISDecoder)
        ensures
            r.carry() == SjisState::Clean,
    {
        ShiftJISDecoder { state: SjisState::Clean }
    }
}

/// Stateless streaming encoder into Shift-JIS.
#[derive(Clone, Copy)]
pub struct ShiftJISEncoder;

impl ShiftJISEncoder {
    /// The encoding this encoder belongs to.
    pub fn encoding(&self) -> ShiftJISEncoding {
        ShiftJISEncoding
    }

    /// Translates `input` left to right, appending the bytes of every
    /// translated code point to `output`. Stops at the first code point
    /// Shift-JIS cannot express and reports it; code points before it are
    /// committed.
    pub fn raw_feed(&mut self, input: &[char], output: &mut Vec<u8>) -> (r: (
        usize,
        Option<CodecError>,
    ))
        ensures
            ({
                let run = enc_feed(sjis_encode_fn(), input@);
                match run {
                    EncOutcome::Done { out } => {
                        &&& final(output)@ == old(output)@ + out
                        &&& r.0 == input@.len()
                        &&& r.1 is None
                    },
                    EncOutcome::Fault { consumed, upto, out } => {
                        &&& final(output)@ == old(output)@ + out
                        &&& r.0 as int == consumed
                        &&& r.1 == Some(
                            (CodecError {
                                upto: upto as usize,
                                cause: ErrorCause::UnrepresentableCharacter,
                            }),
                        )
                    },
                }
            }),
    {
        sjis_encode_loop(input, output)
    }

    /// A Shift-JIS encoder never holds carry state, so finishing appends
    /// nothing and never errors.
    pub fn raw_finish(&mut self, output: &mut Vec<u8>) -> (r: Option<CodecError>)
        ensures
            final(output)@ == old(output)@,
            r is None,
    {
        let _ = output;
        None
    }
}

/// Appends the Shift-JIS bytes of `c` to `output`; `false` with `output`
/// unchanged where Shift-JIS cannot express `c`.
fn sjis_encode_push(c: char, output: &mut Vec<u8>) -> (r: bool)
    ensures
        sjis_encode_char(c) matches Some(bytes) ==> r && final(output)@ == old(output)@ + bytes,
        sjis_encode_char(c) is None ==> !r && final(output)@ == old(output)@,
{
    let v = c as u32;
    if v <= 0x80 {
        output.push(v as u8);
        proof {
            assert(final(output)@ =~= old(output)@ + seq![v as u8]);
        }
        true
    } else if v == 0xA5 {
        output.push(0x5C);
        proof {
            assert(final(output)@ =~= old(output)@ + seq![0x5Cu8]);
        }
        true
    } else if v == 0x203E {
        output.push(0x7E);
        proof {
            assert(final(output)@ =~= old(output)@ + seq![0x7Eu8]);
        }
        true
    } else if 0xFF61 <= v && v <= 0xFF9F {
        output.push((v - 0xFF61 + 0xA1) as u8);
        proof {
            assert(final(output)@ =~= old(output)@ + seq![(v - 0xFF61 + 0xA1) as u8]);
        }
        true
    } else {
        let ptr = encoding_index_japanese::jis0208::backward(v);
        if ptr == 0xFFFF || ptr >= 11280 {
            false
        } else {
            let lead = ptr / 188;
            let leadoffset: u16 = if lead < 0x1F { 0x81 } else { 0xC1 };
            let trail = ptr % 188;
            let trailoffset: u16 = if trail < 0x3F { 0x40 } else { 0x41 };
            let first = (lead + leadoffset) as u8;
            let second = (trail + trailoffset) as u8;
            output.push(first);
            output.push(second);
            proof {
                assert(final(output)@ =~= old(output)@ + seq![first, second]);
            }
            true
        }
    }
}

/// The encoder's feed loop, shared by [`ShiftJISEncoder::raw_feed`].
#[verifier::loop_isolation(false)]
fn sjis_encode_loop(input: &[char], output: &mut Vec<u8>) -> (r: (usize, Option<CodecError>))
    ensures
        ({
            let run = enc_feed(sjis_encode_fn(), input@);
            match run {
                EncOutcome::Done { out } => {
                    &&& final(output)@ == old(output)@ + out
                    &&& r.0 == input@.len()
                    &&& r.1 is None
                },
                EncOutcome::Fault { consumed, upto, out } => {
                    &&& final(output)@ == old(output)@ + out
                    &&& r.0 as int == consumed
                    &&& r.1 == Some(
                        (CodecError {
                            upto: upto as usize,
                            cause: ErrorCause::UnrepresentableCharacter,
                        }),
                    )
                },
            }
        }),
{
    let ghost base = old(output)@;
    let mut i: usize = 0;
    while i < input.len()
        invariant
            i <= input@.len(),
            output@.len() >= base.len(),
            output@.subrange(0, base.len() as int) == base,
            enc_prepend(
                output@.skip(base.len() as int),
                enc_run(sjis_encode_fn(), input@, i as int),
            ) == enc_feed(sjis_encode_fn(), input@),
        decreases input@.len() - i,
    {
        let ghost emitted = output@.skip(base.len() as int);
        let ghost rest = enc_run(sjis_encode_fn(), input@, i + 1);
        let c = input[i];
        proof {
            assert(sjis_encode_fn()(c) == sjis_encode_char(c));
        }
        let ok = sjis_encode_push(c, output);
        if !ok {
            proof {
                assert(enc_run(sjis_encode_fn(), input@, i as int) == EncOutcome::Fault {
                    consumed: i as int,
                    upto: i + 1,
                    out: Seq::<u8>::empty(),
                });
                assert(emitted + Seq::<u8>::empty() =~= emitted);
                assert(enc_feed(sjis_encode_fn(), input@) == EncOutcome::Fault {
                    consumed: i as int,
                    upto: i + 1,
                    out: emitted,
                });
                assert(output@ =~= base + emitted);
            }
            return (
                i,
                Some(CodecError { upto: i + 1, cause: ErrorCause::UnrepresentableCharacter }),
            );
        }
        proof {
            let bytes = sjis_encode_char(c)->Some_0;
            assert(enc_run(sjis_encode_fn(), input@, i as int) == enc_prepend(bytes, rest));
            assert(output@.skip(base.len() as int) =~= emitted + bytes);
            lemma_enc_prepend_prepend(emitted, bytes, rest);
        }
        i = i + 1;
    }
    proof {
        let emitted = output@.skip(base.len() as int);
        assert(enc_run(sjis_encode_fn(), input@, i as int) == EncOutcome::Done {
            out: Seq::<u8>::empty(),
        });
        assert(emitted + Seq::<u8>::empty() =~= emitted);
        assert(enc_feed(sjis_encode_fn(), input@) == EncOutcome::Done { out: emitted });
        assert(output@ =~= base + emitted);
    }
    (i, None)
}

/// Streaming decoder from Shift-JIS, carrying one pending lead byte.
#[derive(Clone, Copy)]
pub struct ShiftJISDecoder {
    state: SjisState,
}

impl ShiftJISDecoder {
    /// The encoding this decoder belongs to.
    pub fn encoding(&self) -> ShiftJISEncoding {
        ShiftJISEncoding
    }

    /// The carry state: whether a lead byte is pending.
    pub closed spec fn carry(&self) -> SjisState {
        self.state
    }

    /// Translates `input` left to right, resuming a lead byte carried from
    /// the last call, appending every resolved character to `output`, and
    /// carrying a trailing lead byte. On an invalid sequence it reports the
    /// committed count and the fault offset and clears the carry.
    #[verifier::loop_isolation(false)]
    pub fn raw_feed(&mut self, input: &[u8], output: &mut Vec<char>) -> (r: (
        usize,
        Option<CodecError>,
    ))
        ensures
            ({
                let run = dec_feed(sjis_step_fn(), SjisState::Clean, input@, old(self).carry());
                match run {
                    DecOutcome::Done { state, out } => {
                        &&& final(self).carry() == state
                        &&& final(output)@ == old(output)@ + out
                        &&& r.0 == input@.len()
                        &&& r.1 is None
                    },
                    DecOutcome::Fault { consumed, upto, out } => {
                        &&& final(self).carry() == SjisState::Clean
                        &&& final(output)@ == old(output)@ + out
                        &&& r.0 as int == consumed
                        &&& r.1 == Some(
                            (CodecError { upto: upto as usize, cause: ErrorCause::InvalidSequence }),
                        )
                    },
                }
            }),
    {
        let ghost s0 = self.state;
        let ghost base = old(output)@;
        let mut i: usize = 0;
        let mut committed: usize = 0;
        while i < input.len()
            invariant
                i <= input@.len(),
                committed <= i,
                output@.len() >= base.len(),
                output@.subrange(0, base.len() as int) == base,
                dec_prepend(
                    output@.skip(base.len() as int),
                    dec_run(
                        sjis_step_fn(),
                        SjisState::Clean,
                        input@,
                        i as int,
                        self.state,
                        committed as int,
                    ),
                ) == dec_feed(sjis_step_fn(), SjisState::Clean, input@, s0),
            decreases input@.len() - i,
        {
            let ghost emitted = output@.skip(base.len() as int);
            let b = input[i];
            proof {
                assert(sjis_step_fn()(self.state, b) == sjis_step(self.state, b));
            }
            let t = sjis_transition(self.state, b);
            match t {
                Step::Next { state: s2, emit } => {
                    let ghost c2: int = if s2 == SjisState::Clean {
                        i + 1
                    } else {
                        committed as int
                    };
                    let ghost rest = dec_run(
                        sjis_step_fn(),
                        SjisState::Clean,
                        input@,
                        i + 1,
                        s2,
                        c2,
                    );
                    let ghost emit_seq: Seq<char> = match emit {
                        Some(c) => seq![c],
                        None => Seq::empty(),
                    };
                    proof {
                        assert(dec_run(
                            sjis_step_fn(),
                            SjisState::Clean,
                            input@,
                            i as int,
                            self.state,
                            committed as int,
                        ) == dec_prepend(emit_seq, rest));
                        lemma_dec_prepend_prepend(emitted, emit_seq, rest);
                    }
                    self.state = s2;
                    match emit {
                        Some(c) => {
                            output.push(c);
                            proof {
                                assert(output@.skip(base.len() as int) =~= emitted + emit_seq);
                                assert(output@.subrange(0, base.len() as int) =~= base);
                            }
                        },
                        None => {
                            proof {
                                assert(emitted + emit_seq =~= emitted);
                            }
                        },
                    }
                    i = i + 1;
                    if self.state == SjisState::Clean {
                        committed = i;
                    }
                },
                Step::Error { taken } => {
                    proof {
                        assert(dec_run(
                            sjis_step_fn(),
                            SjisState::Clean,
                            input@,
                            i as int,
                            self.state,
                            committed as int,
                        ) == DecOutcome::<SjisState>::Fault {
                            consumed: committed as int,
                            upto: if taken {
                                i + 1
                            } else {
                                i as int
                            },
                            out: Seq::<char>::empty(),
                        });
                        assert(emitted + Seq::<char>::empty() =~= emitted);
                        assert(dec_feed(sjis_step_fn(), SjisState::Clean, input@, s0)
                            == DecOutcome::<SjisState>::Fault {
                            consumed: committed as int,
                            upto: if taken {
                                i + 1
                            } else {
                                i as int
                            },
                            out: emitted,
                        });
                        assert(output@ =~= base + emitted);
                    }
                    self.state = SjisState::Clean;
                    let upto = if taken {
                        i + 1
                    } else {
                        i
                    };
                    return (committed, Some(CodecError { upto, cause: ErrorCause::InvalidSequence }));
                },
            }
        }
        proof {
            let emitted = output@.skip(base.len() as int);
            assert(dec_run(
                sjis_step_fn(),
                SjisState::Clean,
                input@,
                i as int,
                self.state,
                committed as int,
            ) == DecOutcome::<SjisState>::Done { state: self.state, out: Seq::<char>::empty() });
            assert(emitted + Seq::<char>::empty() =~= emitted);
            assert(dec_feed(sjis_step_fn(), SjisState::Clean, input@, s0)
                == DecOutcome::<SjisState>::Done { state: self.state, out: emitted });
            assert(output@ =~= base + emitted);
        }
        (i, None)
    }

    /// Reports a lead byte left dangling at end of input: an error exactly
    /// when carry state is pending. Appends nothing.
    pub fn raw_finish(&mut self, output: &mut Vec<char>) -> (r: Option<CodecError>)
        ensures
            final(output)@ == old(output)@,
            *final(self) == *old(self),
            old(self).carry() == SjisState::Clean ==> r is None,
            old(self).carry() != SjisState::Clean ==> r == Some(
                (CodecError { upto: 0, cause: ErrorCause::IncompleteSequence }),
            ),
    {
        let _ = output;
        if self.state == SjisState::Clean {
            None
        } else {
            Some(CodecError { upto: 0, cause: ErrorCause::IncompleteSequence })
        }
    }
}

/// ASCII identity for the EUC-JP codec pair: text at or below 0x7F encodes
/// to the same byte values and decodes back to the original text, ending
/// with an empty carry.
pub proof fn lemma_eucjp_ascii_identity(text: Seq<char>)
    requires
        forall|j: int| 0 <= j < text.len() ==> (#[trigger] text[j]) as u32 <= 0x7F,
    ensures
        ({
            let e = enc_feed(eucjp_encode_fn(), text);
            &&& e is Done
            &&& dec_feed(eucjp_step_fn(), EucjpState::Clean, e->Done_out, EucjpState::Clean)
                == (DecOutcome::<EucjpState>::Done { state: EucjpState::Clean, out: text })
        }),
{
    assert forall|c: char| c as u32 <= 0x7F implies #[trigger] eucjp_encode_fn()(c) == Some(
        seq![((c as u32) as u8)],
    ) by {
        assert(eucjp_encode_char(c) == Some(seq![((c as u32) as u8)]));
    }
    assert forall|b: u8| b <= 0x7F implies #[trigger] eucjp_step_fn()(EucjpState::Clean, b)
        == (Step::<EucjpState>::Next {
        state: EucjpState::Clean,
        emit: Some(((b as u32) as char)),
    }) by {
        assert(eucjp_step(EucjpState::Clean, b) == (Step::<EucjpState>::Next {
            state: EucjpState::Clean,
            emit: Some(((b as u32) as char)),
        }));
    }
    lemma_ascii_identity(eucjp_encode_fn(), eucjp_step_fn(), EucjpState::Clean, text);
}

/// ASCII identity for the Shift-JIS codec pair: text at or below 0x7F
/// encodes to the same byte values and decodes back to the original text,
/// ending with an empty carry.
pub proof fn lemma_shiftjis_ascii_identity(text: Seq<char>)
    requires
        forall|j: int| 0 <= j < text.len() ==> (#[trigger] text[j]) as u32 <= 0x7F,
    ensures
        ({
            let e = enc_feed(sjis_encode_fn(), text);
            &&& e is Done
            &&& dec_feed(sjis_step_fn(), SjisState::Clean, e->Done_out, SjisState::Clean)
                == (DecOutcome::<SjisState>::Done { state: SjisState::Clean, out: text })
        }),
{
    assert forall|c: char| c as u32 <= 0x7F implies #[trigger] sjis_encode_fn()(c) == Some(
        seq![((c as u32) as u8)],
    ) by {
        assert(sjis_encode_char(c) == Some(seq![((c as u32) as u8)]));
    }
    assert forall|b: u8| b <= 0x7F implies #[trigger] sjis_step_fn()(SjisState::Clean, b)
        == (Step::<SjisState>::Next {
        state: SjisState::Clean,
        emit: Some(((b as u32) as char)),
    }) by {
        assert(sjis_step(SjisState::Clean, b) == (Step::<SjisState>::Next {
            state: SjisState::Clean,
            emit: Some(((b as u32) as char)),
        }));
    }
    lemma_ascii_identity(sjis_encode_fn(), sjis_step_fn(), SjisState::Clean, text);
}

/// Round trip through EUC-JP for the code points it maps without a table:
/// ASCII and half-width katakana decode back to the encoded code point.
/// U+00A5 and U+203E are left out: they encode to the bytes of ASCII 0x5C
/// and 0x7E and decode to those ASCII code points instead. Code points that
/// encode through the JIS X 0208 table round-trip exactly when the forward
/// table inverts the backward table at that cell, which is a property of
/// the table data, not of this library.
pub proof fn lemma_eucjp_roundtrip_direct(c: char)
    requires
        c as u32 <= 0x7F || (0xFF61 <= c as u32 && c as u32 <= 0xFF9F),
    ensures
        ({
            let e = eucjp_encode_char(c);
            &&& e is Some
            &&& dec_feed(eucjp_step_fn(), EucjpState::Clean, e->Some_0, EucjpState::Clean)
                == (DecOutcome::<EucjpState>::Done { state: EucjpState::Clean, out: seq![c] })
        }),
{
    let v = c as u32;
    vstd::utf8::char_u32_cast(c, v);
    let bytes = eucjp_encode_char(c)->Some_0;
    if v <= 0x7F {
        let bt: u8 = v as u8;
        assert(bytes =~= seq![bt]);
        assert(eucjp_step(EucjpState::Clean, bt) == (Step::<EucjpState>::Next {
            state: EucjpState::Clean,
            emit: Some(c),
        }));
        assert(dec_run(eucjp_step_fn(), EucjpState::Clean, bytes, 1, EucjpState::Clean, 1)
            == (DecOutcome::<EucjpState>::Done {
            state: EucjpState::Clean,
            out: Seq::<char>::empty(),
        }));
        assert(seq![c] + Seq::<char>::empty() =~= seq![c]);
    } else {
        let t: u8 = (v - 0xFF61 + 0xA1) as u8;
        assert(bytes =~= seq![0x8Eu8, t]);
        assert(eucjp_step(EucjpState::Clean, 0x8E) == (Step::<EucjpState>::Next {
            state: EucjpState::Katakana,
            emit: None::<char>,
        }));
        assert(0xA1 <= t && t <= 0xDF);
        assert(0xFF61 + t - 0xA1 == v);
        assert(eucjp_step(EucjpState::Katakana, t) == (Step::<EucjpState>::Next {
            state: EucjpState::Clean,
            emit: Some(c),
        }));
        assert(dec_run(eucjp_step_fn(), EucjpState::Clean, bytes, 2, EucjpState::Clean, 2)
            == (DecOutcome::<EucjpState>::Done {
            state: EucjpState::Clean,
            out: Seq::<char>::empty(),
        }));
        assert(dec_run(eucjp_step_fn(), EucjpState::Clean, bytes, 1, EucjpState::Katakana, 0)
            == (DecOutcome::<EucjpState>::Done { state: EucjpState::Clean, out: seq![c] }));
        assert(Seq::<char>::empty() + seq![c] =~= seq![c]);
        assert(seq![c] + Seq::<char>::empty() =~= seq![c]);
    }
}

/// Round trip through Shift-JIS for the code points it maps without a
/// table: ASCII and half-width katakana decode back to the encoded code
/// point. U+0080, U+00A5 and U+203E are left out: they encode to raw bytes
/// that decode as an invalid byte or as the ASCII code points 0x5C and
/// 0x7E. Code points that encode through the JIS X 0208 table round-trip
/// exactly when the forward table inverts the backward table at that cell,
/// which is a property of the table data, not of this library.
pub proof fn lemma_shiftjis_roundtrip_direct(c: char)
    requires
        c as u32 <= 0x7F || (0xFF61 <= c as u32 && c as u32 <= 0xFF9F),
    ensures
        ({
            let e = sjis_encode_char(c);
            &&& e is Some
            &&& dec_feed(sjis_step_fn(), SjisState::Clean, e->Some_0, SjisState::Clean)
                == (DecOutcome::<SjisState>::Done { state: SjisState::Clean, out: seq![c] })
        }),
{
    let v = c as u32;
    vstd::utf8::char_u32_cast(c, v);
    let bytes = sjis_encode_char(c)->Some_0;
    let bt: u8 = if v <= 0x7F {
        v as u8
    } else {
        (v - 0xFF61 + 0xA1) as u8
    };
    assert(bytes =~= seq![bt]);
    assert(sjis_step(SjisState::Clean, bt) == (Step::<SjisState>::Next {
        state: SjisState::Clean,
        emit: Some(c),
    }));
    assert(dec_run(sjis_step_fn(), SjisState::Clean, bytes, 1, SjisState::Clean, 1)
        == (DecOutcome::<SjisState>::Done { state: SjisState::Clean, out: Seq::<char>::empty() }));
    assert(seq![c] + Seq::<char>::empty() =~= seq![c]);
}

/// Chunk-boundary invariance for the EUC-JP decoder: a valid byte stream
/// split anywhere and fed as two chunks resolves the same characters and
/// leaves the same carry as the whole stream fed at once.
pub proof fn lemma_eucjp_chunk_boundary(s: EucjpState, a: Seq<u8>, b: Seq<u8>)
    requires
        dec_feed(eucjp_step_fn(), EucjpState::Clean, a + b, s) is Done,
    ensures
        dec_feed(eucjp_step_fn(), EucjpState::Clean, a, s) is Done,
        ({
            let whole = dec_feed(eucjp_step_fn(), EucjpState::Clean, a + b, s);
            let first = dec_feed(eucjp_step_fn(), EucjpState::Clean, a, s);
            let second = dec_feed(eucjp_step_fn(), EucjpState::Clean, b, first->Done_state);
            &&& second is Done
            &&& whole == (DecOutcome::<EucjpState>::Done {
                state: second->Done_state,
                out: first->Done_out + second->Done_out,
            })
        }),
{
    lemma_dec_chunk_boundary(eucjp_step_fn(), EucjpState::Clean, s, a, b);
}

/// Chunk-boundary invariance for the Shift-JIS decoder: a valid byte
/// stream split anywhere and fed as two chunks resolves the same
/// characters and leaves the same carry as the whole stream fed at once.
pub proof fn lemma_shiftjis_chunk_boundary(s: SjisState, a: Seq<u8>, b: Seq<u8>)
    requires
        dec_feed(sjis_step_fn(), SjisState::Clean, a + b, s) is Done,
    ensures
        dec_feed(sjis_step_fn(), SjisState::Clean, a, s) is Done,
        ({
            let whole = dec_feed(sjis_step_fn(), SjisState::Clean, a + b, s);
            let first = dec_feed(sjis_step_fn(), SjisState::Clean, a, s);
            let second = dec_feed(sjis_step_fn(), SjisState::Clean, b, first->Done_state);
            &&& second is Done
            &&& whole == (DecOutcome::<SjisState>::Done {
                state: second->Done_state,
                out: first->Done_out + second->Done_out,
            })
        }),
{
    lemma_dec_chunk_boundary(sjis_step_fn(), SjisState::Clean, s, a, b);
}

} // verus!
