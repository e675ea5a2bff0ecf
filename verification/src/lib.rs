//! A schema-driven codec between dynamically typed message instances and the
//! Protocol Buffers binary wire format.
//!
//! A message class is reflected once into a [`descriptors::MessageDescriptor`];
//! the encoder and the decoder then walk instances and wire bytes against that
//! descriptor. Every function of this crate carries a contract that is checked
//! by Verus; the few calls into `prost`, `chrono` and `std` that are taken on
//! trust are marked as such where they stand.

pub mod betterproto_interop;
pub mod decode;
pub mod descriptors;
pub mod encode;
pub mod theorems;
pub mod well_known_types;
pub mod wire;
