use vstd::prelude::*;

verus! {

/// The ways a decode can fail.  Every error is recoverable by the caller;
/// encoding is total and never fails.
#[derive(Debug, Clone, Copy, PartialEq, Eq, Structural)]
pub enum DecodeError {
    /// A fixed-length sequence had the wrong element count.
    ArityMismatch { expected: u64, actual: u64 },
    /// A handler spec's reserved leading field held something other than 0.
    InvalidDiscriminant { expected: u64, actual: u64 },
    /// A handler spec's semantic tag was not the embedded-item tag 24.
    InvalidTag { expected: u64, actual: u64 },
    /// A tagged-union discriminant outside the recognized set.
    UnknownVariant(u64),
    /// Truncated input or an invalid primitive encoding.
    MalformedEncoding,
}

} // verus!
