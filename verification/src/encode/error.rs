//! Failures of encoding.

use crate::betterproto_interop::InteropError;
use vstd::prelude::*;

verus! {

/// Why an instance could not be encoded.
#[derive(Debug, PartialEq)]
pub enum EncodeError {
    /// An operation of the host failed. The variant carries the host's
    /// account of what went wrong.
    PythonInteropFailed(String),
    /// The instance is not one of its class: it has too few or too many
    /// values, a value is not of its field's kind, a duration or a timestamp
    /// is none that the host could hold, or two members of one oneof group
    /// are set.
    DowncastFailed,
    /// The instance's class could not be reflected.
    Interop(InteropError),
    /// A date and time without an offset has no single meaning in the local
    /// time zone.
    OffsetNaiveDateTimeDoesNotMap(chrono::NaiveDateTime),
}

pub type EncodeResult<T> = Result<T, EncodeError>;

impl From<InteropError> for EncodeError {
    /// A failure of reflection, carried as a failure of encoding.
    fn from(value: InteropError) -> (r: EncodeError)
        ensures
            r == EncodeError::Interop(value),
    {
        EncodeError::Interop(value)
    }
}

impl vstd::std_specs::convert::FromSpecImpl<InteropError> for EncodeError {
    open spec fn obeys_from_spec() -> bool {
        true
    }

    open spec fn from_spec(value: InteropError) -> EncodeError {
        EncodeError::Interop(value)
    }
}

} // verus!
