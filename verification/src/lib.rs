//! Packet-level binary codec for OpenPGP-style length-framed records.
//!
//! The crate decodes a stream of self-describing, length-framed binary
//! packets into a typed representation and re-encodes that representation
//! back into wire form, preserving unrecognized packet kinds and
//! sub-types byte for byte.

pub mod header;
pub mod lengths;
pub mod packet;
pub mod ser;
pub mod types;
pub mod user_attribute;
pub mod util;
