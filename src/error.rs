//! Errors of the codec.

use vstd::prelude::*;

verus! {

/// Why a grid could not be decoded, or a payload could not be encoded.
#[derive(Debug, Clone, Copy, PartialEq, Eq, Structural)]
pub enum FtoiError {
    /// The grid lacks one of the two header pixels `(0, 0)` and `(0, 1)`.
    MalformedHeader,
    /// The header records more payload bytes than the grid holds.
    InsufficientData,
    /// The xz stage reported a fault.
    Compression,
    /// The grid for this payload would not fit in memory.
    TooLarge,
}

} // verus!
