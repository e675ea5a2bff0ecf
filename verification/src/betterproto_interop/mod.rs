//! The model of the host side: message classes, their metadata and their
//! instances, as plain values.

pub mod error;
pub mod field_meta;
pub mod message;
pub mod message_class;
pub mod message_meta;

pub use self::error::InteropError;
pub use self::error::InteropResult;
pub use self::message::BetterprotoMessage;
pub use self::message::Value;
pub use self::message::ValueView;
pub use self::field_meta::BetterprotoFieldMeta;
pub use self::message_meta::BetterprotoMessageMeta;
pub use self::message_class::BetterprotoMessageClass;
