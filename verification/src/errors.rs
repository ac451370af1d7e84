//! The error type shared by every decoder and encoder of the crate.

use vstd::prelude::*;

verus! {

/// What can go wrong while bytes are decoded or a value is encoded.
#[derive(Debug, Clone, Copy, PartialEq, Eq, Structural)]
pub enum KafkaErrors {
    /// An API key in the reserved range `0..=75` that has no handler here.
    Unimplemented(i16),
    /// An API key outside the reserved range.
    InvalidApiKey(i16),
    /// A value that has no encoding, such as a body longer than a frame can declare.
    InvalidWriterArg,
    /// The input ended before the value did.
    UnexpectedEndOfInput,
    /// A variable-length integer that runs past five bytes.
    MalformedVarint,
    /// Bytes that are all there but do not form the expected value.
    MalformedFrame,
}

/// What a decoder makes of a byte sequence: the value together with the bytes
/// that follow it, or the reason why there is no value.
pub type Decoded<T> = Result<(T, Seq<u8>), KafkaErrors>;

} // verus!
