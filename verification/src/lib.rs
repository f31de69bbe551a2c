//! A schema-driven builder for substrate-style extrinsic transactions.
//!
//! The crate turns a runtime type schema into an editable value tree
//! ([`field_content::FieldContent`]), routes path-addressed edit events into
//! that tree, and serialises the populated tree into the canonical compact
//! ("SCALE") byte encoding expected on the wire.

pub mod call_constructor;
pub mod cards;
pub mod decode;
pub mod extensions;
pub mod field_content;
pub mod messaging;
pub mod scale;
pub mod schema;
pub mod text;
