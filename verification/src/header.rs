//! Packet header reader: consumes a tag byte, determines the body
//! length through the length codec, and slices out the body.
//!
//! An old-style tag byte has the high bit set and the next bit clear;
//! it carries the packet kind in four bits and a length-width selector
//! in the low two bits (widths 1, 2 and 4, or the indeterminate width
//! that runs to the end of the input). A new-style tag byte has the
//! two high bits set and carries the kind in the low six bits; its
//! body length is self-describing and may arrive as a chain of
//! partial-length chunks, which are accumulated into one logical body.

use vstd::prelude::*;

use crate::lengths::{
    decode_new_length, decode_old_length, spec_decode_new_length, spec_decode_old_length,
    NewLength,
};
use crate::types::{Error, Version};
use crate::util::push_bytes;

verus! {

/// A raw packet: the tag, the framing version the tag byte used, and
/// the body bytes. Produced transiently by `read_header` and consumed
/// at once by the kind dispatcher.
pub struct RawPacket {
    pub tag: u8,
    pub version: Version,
    pub body: Vec<u8>,
}

/// Mathematical model of a `RawPacket`.
#[verifier::ext_equal]
pub struct RawPacketView {
    pub tag: u8,
    pub version: Version,
    pub body: Seq<u8>,
}

impl View for RawPacket {
    type V = RawPacketView;

    open spec fn view(&self) -> RawPacketView {
        RawPacketView { tag: self.tag, version: self.version, body: self.body@ }
    }
}

/// Accumulation of a new-style body found at the start of `s`: chunks
/// introduced by partial lengths are concatenated until a definite
/// length terminates the body. Yields the body and the bytes consumed.
pub open spec fn spec_read_new_body(s: Seq<u8>) -> Result<(Seq<u8>, int), Error>
    decreases s.len(),
{
    match spec_decode_new_length(s) {
        Err(e) => Err(e),
        Ok((NewLength::Fixed(l), c)) => {
            if s.len() < c + l {
                Err(Error::IncompleteInput)
            } else {
                Ok((s.subrange(c, c + l), c + l))
            }
        },
        Ok((NewLength::Partial(l), c)) => {
            if s.len() < c + l {
                Err(Error::IncompleteInput)
            } else {
                match spec_read_new_body(s.skip(c + l)) {
                    Err(e) => Err(e),
                    Ok((b2, c2)) => Ok((s.subrange(c, c + l) + b2, c + l + c2)),
                }
            }
        },
    }
}

/// Reading of one packet header and body from the start of `s`: the
/// raw packet and the total bytes consumed, or the decode failure.
pub open spec fn spec_read_header(s: Seq<u8>) -> Result<(RawPacketView, int), Error> {
    if s.len() == 0 {
        Err(Error::IncompleteInput)
    } else if s[0] & 0x80 == 0 {
        Err(Error::InvalidHeader)
    } else if s[0] & 0x40 == 0 {
        let tag = (s[0] >> 2) & 0x0f;
        let width_sel = s[0] & 0x03;
        if width_sel == 3 {
            Ok(
                (
                    RawPacketView { tag, version: Version::Old, body: s.skip(1) },
                    s.len() as int,
                ),
            )
        } else {
            let width: int = if width_sel == 0 {
                1
            } else if width_sel == 1 {
                2
            } else {
                4
            };
            match spec_decode_old_length(s.skip(1), width) {
                Err(e) => Err(e),
                Ok((l, c)) => {
                    if s.len() < 1 + c + l {
                        Err(Error::IncompleteInput)
                    } else {
                        Ok(
                            (
                                RawPacketView {
                                    tag,
                                    version: Version::Old,
                                    body: s.subrange(1 + c, 1 + c + l),
                                },
                                1 + c + l,
                            ),
                        )
                    }
                },
            }
        }
    } else {
        let tag = s[0] & 0x3f;
        match spec_read_new_body(s.skip(1)) {
            Err(e) => Err(e),
            Ok((body, c)) => Ok(
                (RawPacketView { tag, version: Version::New, body }, 1 + c),
            ),
        }
    }
}

/// Reads one packet header and body from the start of `s`, returning
/// the raw packet and the number of bytes consumed. Partial-length
/// chunks are accumulated iteratively into one logical body.
pub fn read_header(s: &[u8]) -> (r: Result<(RawPacket, usize), Error>)
    ensures
        (match (r, spec_read_header(s@)) {
            (Ok((p, c)), Ok((sp, sc))) => p@ == sp && c as int == sc,
            (Err(e), Err(se)) => e == se,
            _ => false,
        }),
{
    if s.len() == 0 {
        return Err(Error::IncompleteInput);
    }
    let b0: u8 = *vstd::slice::slice_index_get(s, 0);
    if b0 & 0x80 == 0 {
        return Err(Error::InvalidHeader);
    }
    if b0 & 0x40 == 0 {
        let tag: u8 = (b0 >> 2) & 0x0f;
        let width_sel: u8 = b0 & 0x03;
        if width_sel == 3 {
            let body: Vec<u8> = vstd::slice::slice_to_vec(
                vstd::slice::slice_subrange(s, 1, s.len()),
            );
            proof {
                assert(s@.subrange(1, s@.len() as int) =~= s@.skip(1));
            }
            return Ok((RawPacket { tag, version: Version::Old, body }, s.len()));
        }
        let width: usize = if width_sel == 0 {
            1
        } else if width_sel == 1 {
            2
        } else {
            4
        };
        let rest = vstd::slice::slice_subrange(s, 1, s.len());
        proof {
            assert(rest@ =~= s@.skip(1));
        }
        match decode_old_length(rest, width) {
            Err(e) => Err(e),
            Ok((l, c)) => {
                let lu: usize = l as usize;
                if s.len() - 1 - c < lu {
                    return Err(Error::IncompleteInput);
                }
                let body: Vec<u8> = vstd::slice::slice_to_vec(
                    vstd::slice::slice_subrange(s, 1 + c, 1 + c + lu),
                );
                Ok((RawPacket { tag, version: Version::Old, body }, 1 + c + lu))
            },
        }
    } else {
        let tag: u8 = b0 & 0x3f;
        let mut body: Vec<u8> = Vec::new();
        let mut pos: usize = 1;
        loop
            invariant
                1 <= pos <= s@.len(),
                (match spec_read_new_body(s@.skip(pos as int)) {
                    Ok((b2, c2)) => spec_read_new_body(s@.skip(1)) == Ok::<(Seq<u8>, int), Error>(
                        (body@ + b2, (pos - 1) + c2),
                    ),
                    Err(e) => spec_read_new_body(s@.skip(1)) == Err::<(Seq<u8>, int), Error>(e),
                }),
                spec_read_header(s@) == (match spec_read_new_body(s@.skip(1)) {
                    Err(e) => Err::<(RawPacketView, int), Error>(e),
                    Ok((b, c)) => Ok::<(RawPacketView, int), Error>(
                        (RawPacketView { tag, version: Version::New, body: b }, 1 + c),
                    ),
                }),
            decreases s@.len() - pos,
        {
            let chunk_src = vstd::slice::slice_subrange(s, pos, s.len());
            proof {
                assert(chunk_src@ =~= s@.skip(pos as int));
            }
            match decode_new_length(chunk_src) {
                Err(e) => {
                    return Err(e);
                },
                Ok((NewLength::Fixed(l), c)) => {
                    let lu: usize = l as usize;
                    if s.len() - pos - c < lu {
                        return Err(Error::IncompleteInput);
                    }
                    proof {
                        assert(s@.skip(pos as int).subrange(c as int, c + lu) =~= s@.subrange(
                            pos + c,
                            pos + c + lu,
                        ));
                    }
                    push_bytes(&mut body, vstd::slice::slice_subrange(s, pos + c, pos + c + lu));
                    return Ok((RawPacket { tag, version: Version::New, body }, pos + c + lu));
                },
                Ok((NewLength::Partial(l), c)) => {
                    let lu: usize = l as usize;
                    if s.len() - pos - c < lu {
                        return Err(Error::IncompleteInput);
                    }
                    let ghost pos0 = pos as int;
                    let ghost body0 = body@;
                    let ghost chunk = s@.subrange(pos + c, pos + c + lu);
                    proof {
                        assert(s@.skip(pos0).subrange(c as int, c + lu) =~= chunk);
                        assert(s@.skip(pos0).skip(c + lu) =~= s@.skip(pos0 + c + lu));
                    }
                    push_bytes(&mut body, vstd::slice::slice_subrange(s, pos + c, pos + c + lu));
                    pos = pos + c + lu;
                    proof {
                        match spec_read_new_body(s@.skip(pos as int)) {
                            Ok((b2, c2)) => {
                                assert(spec_read_new_body(s@.skip(pos0)) == Ok::<
                                    (Seq<u8>, int),
                                    Error,
                                >((chunk + b2, c + lu + c2)));
                                assert(body@ + b2 =~= body0 + (chunk + b2));
                            },
                            Err(e) => {
                                assert(spec_read_new_body(s@.skip(pos0)) == Err::<
                                    (Seq<u8>, int),
                                    Error,
                                >(e));
                            },
                        }
                    }
                },
            }
        }
    }
}

} // verus!
