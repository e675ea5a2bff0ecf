//! Failures of reflecting a message class or of reading a host value.

use vstd::prelude::*;

verus! {

/// A wall-clock date and time without an offset, as `chrono` holds it.
#[verifier::external_type_specification]
#[verifier::external_body]
pub struct ExNaiveDateTime(chrono::NaiveDateTime);

/// Why a host object could not be used as a message class or as a value.
#[derive(Debug, PartialEq)]
pub enum InteropError {
    /// The object does not meet what is asked of a message class. The variant
    /// carries the host's account of what went wrong.
    NoBetterprotoMessage(String),
    /// A field's declared type is none that the codec understands.
    UnsupportedValueType(String),
    /// A map's declared key type is none that a map can be keyed by.
    UnsupportedKeyType(String),
    /// A nullable scalar wraps a type that the codec does not understand.
    UnsupportedWrappedType(String),
    /// A field that the metadata names lacks an entry that its kind needs.
    IncompleteMetadata,
    /// A date and time without an offset has no single meaning in the local
    /// time zone.
    OffsetNaiveDateTimeDoesNotMap(chrono::NaiveDateTime),
}

pub type InteropResult<T> = Result<T, InteropError>;

/// A failure of reflection as a mathematical value: the host's account of
/// what went wrong is left out, the names of types are sequences of
/// characters.
pub enum InteropErrorView {
    NoBetterprotoMessage,
    UnsupportedValueType(Seq<char>),
    UnsupportedKeyType(Seq<char>),
    UnsupportedWrappedType(Seq<char>),
    IncompleteMetadata,
    OffsetNaiveDateTimeDoesNotMap(chrono::NaiveDateTime),
}

impl View for InteropError {
    type V = InteropErrorView;

    open spec fn view(&self) -> InteropErrorView {
        match self {
            InteropError::NoBetterprotoMessage(_) => InteropErrorView::NoBetterprotoMessage,
            InteropError::UnsupportedValueType(t) => InteropErrorView::UnsupportedValueType(t@),
            InteropError::UnsupportedKeyType(t) => InteropErrorView::UnsupportedKeyType(t@),
            InteropError::UnsupportedWrappedType(t) => InteropErrorView::UnsupportedWrappedType(
                t@,
            ),
            InteropError::IncompleteMetadata => InteropErrorView::IncompleteMetadata,
            InteropError::OffsetNaiveDateTimeDoesNotMap(naive) =>
                InteropErrorView::OffsetNaiveDateTimeDoesNotMap(*naive),
        }
    }
}

} // verus!
