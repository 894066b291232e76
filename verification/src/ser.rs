//! The uniform serialize contract every variant type implements.

use vstd::prelude::*;

verus! {

/// Two-way serialization interface: a value knows the exact byte
/// sequence of its serialized body, reports that sequence's length,
/// and emits exactly those bytes. The enclosing packet encoder writes
/// the framing length of `serialized_body_length()` first and then
/// the body, so a mismatch between the two methods would desynchronize
/// every later packet in a stream; the contract makes it impossible.
pub trait Serialize {
    /// The serialized body bytes of this value.
    spec fn spec_body(&self) -> Seq<u8>;

    /// When the value is well-formed enough to serialize: every field
    /// fits the wire field that carries it.
    spec fn spec_serialize_wf(&self) -> bool;

    /// The exact number of bytes `write_body` emits, excluding the
    /// enclosing frame's own length-field bytes.
    fn serialized_body_length(&self) -> (n: usize)
        requires
            self.spec_serialize_wf(),
        ensures
            n == self.spec_body().len(),
    ;

    /// Appends the serialized body to `out`.
    fn write_body(&self, out: &mut Vec<u8>)
        requires
            self.spec_serialize_wf(),
        ensures
            final(out)@ == old(out)@ + self.spec_body(),
    ;
}

} // verus!
