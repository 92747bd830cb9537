//! Bitwise error-detection codecs: bit-stream segmentation, an
//! end-around-carry checksum, a fixed-generator cyclic redundancy check, and
//! single- and two-dimensional parity schemes. The library only transforms
//! numeric bit patterns into diagnostic values; it performs no I/O.

use vstd::prelude::*;

pub mod bitmath;
pub mod checksum;
pub mod cyclic_redundancy_check;
pub mod simple_parity_check;
pub mod two_dimensional_parity_check;

verus! {

/// Error kind raised at the API boundary by the checked entry points, in
/// place of the silent wraparound or shift overflow that out-of-range
/// arguments would otherwise cause.
#[derive(Clone, Copy, Debug, PartialEq, Eq, Structural)]
pub enum CodecError {
    /// A chunk width outside the range the operation supports.
    InvalidWidth,
    /// A zero-length chunk sequence where at least one chunk is required.
    EmptyChunkSequence,
    /// A chunk whose value does not fit in the declared chunk width.
    OversizedChunk,
}

} // verus!
