//! An application-protocol message as a set of optional sections and one body,
//! a builder that assembles it, and its binary encoding.

pub mod annotations;
pub mod error;
pub mod header;
pub mod message;
pub mod message_codec;
pub mod ordered_map;
pub mod properties;
pub mod text;
pub mod value;
pub mod value_codec;
pub mod wire;
pub mod wrapper;
