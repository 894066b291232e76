//! Common types of the codec: framing version and error taxonomy.

use vstd::prelude::*;

verus! {

/// Which of the two historical framing styles housed a packet.
///
/// The version is fixed when a packet is decoded (or constructed) and
/// propagates unchanged through every transformation.
#[derive(Debug, Clone, Copy, PartialEq, Eq, Structural)]
pub enum Version {
    /// Old-style framing: the tag byte carries the packet kind in four
    /// bits together with a length-width selector.
    Old,
    /// New-style framing: the tag byte carries the packet kind in six
    /// bits and the body length is self-describing.
    New,
}

/// Decode failures of the codec.
#[derive(Debug, Clone, Copy, PartialEq, Eq, Structural)]
pub enum Error {
    /// More bytes are needed: the input ended inside a header, a length
    /// field, or before a declared body was complete. Recoverable by
    /// supplying more input.
    IncompleteInput,
    /// The leading tag byte matches neither framing style; byte-offset
    /// tracking cannot continue reliably past this packet.
    InvalidHeader,
    /// A recognized kind's body violates a structural invariant, such as
    /// an image header-length field below its own two-byte size.
    InvalidStructure,
}

} // verus!
