//! Streaming transcoder between legacy byte encodings (EUC-JP, Shift-JIS,
//! and table-driven single-byte code pages) and Unicode text.
//!
//! Every codec is a pair of streaming machines: `raw_feed` translates one
//! chunk, carrying any trailing partial sequence over to the next call, and
//! `raw_finish` reports a sequence left dangling at end of input. The byte
//! layout of each encoding, the carried state, and the exact consumed and
//! fault offsets of every error are specified and proved against the
//! reference state machines in [`stream`].

pub mod codec;
pub mod stream;
pub mod tables;

use vstd::prelude::*;

verus! {

/// Diagnostic tag attached to every encode or decode failure.
#[derive(Clone, Copy, PartialEq, Eq, Structural, Debug)]
pub enum ErrorCause {
    /// Encoding found a code point with no mapping in the target encoding.
    UnrepresentableCharacter,
    /// Decoding found a byte pattern that is not a valid encoded unit.
    InvalidSequence,
    /// The stream ended in the middle of a multi-byte unit.
    IncompleteSequence,
}

/// Error produced by a feed or finalize call.
///
/// `upto` is the input-relative offset one past the invalid or unmappable
/// unit(s); input units before the consumed count reported alongside the
/// error were already translated and committed to the sink.
#[derive(Clone, Copy, PartialEq, Eq, Structural, Debug)]
pub struct CodecError {
    pub upto: usize,
    pub cause: ErrorCause,
}

} // verus!
