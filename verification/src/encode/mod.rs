//! Encoding of message instances into wire bytes.

pub mod error;
pub mod message;

pub use self::error::EncodeError;
pub use self::error::EncodeResult;
