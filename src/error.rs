//! Errors of the codec.
use vstd::prelude::*;

verus! {

/// Why a frame could not be read or a datagram could not be built.
#[derive(Debug, Clone, Copy, PartialEq, Eq, Structural)]
pub enum CodecError {
    /// The buffer is shorter than a header demands.
    MalformedInput,
    /// The output buffer's length does not match the datagram to be built.
    SizeError,
    /// A 16-bit length field of the datagram would exceed its range.
    OverflowError,
}

} // verus!
