//! Decoding of wire bytes into message instances.

pub mod error;
pub mod message;

pub use self::error::DecodeError;
pub use self::error::DecodeResult;
