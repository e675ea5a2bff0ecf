//! Failures of decoding.

use vstd::prelude::*;

verus! {

/// Why a sequence of wire bytes could not be decoded.
#[derive(Clone, Copy, Debug, PartialEq, Eq, Structural)]
pub enum DecodeError {
    /// The bytes are malformed or truncated, or a field arrived with a wire
    /// type that its kind does not admit.
    InvalidData,
    /// A timestamp lies outside the years 1 to 9999. The variant carries the
    /// instant that was read: seconds since the Unix epoch and the nanoseconds
    /// within that second.
    TimestampOutOfBounds { seconds: i64, nanos: u32 },
}

pub type DecodeResult<T> = Result<T, DecodeError>;

} // verus!
