//! Packet kind dispatcher and the full packet codec.
//!
//! A raw packet's tag selects the registered parser/serializer pair
//! for that kind; the User Attribute kind is the registered exemplar
//! here, and every unregistered tag falls back to an opaque variant
//! that stores tag, framing version and body verbatim. Dispatch on an
//! unrecognized kind is never an error: kinds introduced by future
//! protocol revisions must pass through the codec unharmed.

use vstd::prelude::*;

use crate::header::{read_header, spec_read_header, spec_read_new_body, RawPacket, RawPacketView};
use crate::lengths::{
    encode_new_length, encode_old_length, lemma_new_length_encoding_decodes,
    lemma_old_length_encoding_decodes, spec_new_length_encoding, spec_old_length_encoding,
    spec_old_length_width,
};
use crate::ser::Serialize;
use crate::types::{Error, Version};
use crate::user_attribute::{
    lemma_ua_round_trip, spec_parse_ua, spec_ua_body, spec_ua_version, spec_ua_wf, UserAttribute,
    UserAttributeView,
};

verus! {

/// The tag value of the User Attribute packet kind.
pub const USER_ATTRIBUTE_TAG: u8 = 17;

/// A decoded packet: one arm per kind the codec understands, plus the
/// one open-ended arm that preserves any kind it does not.
#[derive(Debug, PartialEq, Eq, Clone)]
pub enum PacketVariant {
    /// The User Attribute kind, tag 17.
    UserAttribute(UserAttribute),
    /// Any other kind, kept verbatim: tag, framing version and body.
    Unknown { tag: u8, version: Version, body: Vec<u8> },
}

/// Mathematical model of a `PacketVariant`.
#[verifier::ext_equal]
pub enum PacketVariantView {
    UserAttribute(UserAttributeView),
    Unknown { tag: u8, version: Version, body: Seq<u8> },
}

impl View for PacketVariant {
    type V = PacketVariantView;

    open spec fn view(&self) -> PacketVariantView {
        match self {
            PacketVariant::UserAttribute(ua) => PacketVariantView::UserAttribute(ua@),
            PacketVariant::Unknown { tag, version, body } => PacketVariantView::Unknown {
                tag: *tag,
                version: *version,
                body: body@,
            },
        }
    }
}

/// The tag a variant is framed under.
pub open spec fn spec_variant_tag(v: PacketVariantView) -> u8 {
    match v {
        PacketVariantView::UserAttribute(_) => USER_ATTRIBUTE_TAG,
        PacketVariantView::Unknown { tag, .. } => tag,
    }
}

/// The framing version a variant carries.
pub open spec fn spec_variant_version(v: PacketVariantView) -> Version {
    match v {
        PacketVariantView::UserAttribute(ua) => spec_ua_version(ua),
        PacketVariantView::Unknown { version, .. } => version,
    }
}

/// The serialized body of a variant, excluding tag byte and frame
/// length: a recognized kind's serialized form, or the stored bytes.
pub open spec fn spec_variant_body(v: PacketVariantView) -> Seq<u8> {
    match v {
        PacketVariantView::UserAttribute(ua) => spec_ua_body(ua),
        PacketVariantView::Unknown { body, .. } => body,
    }
}

/// Well-formedness of a variant for encoding. A User Attribute is
/// well-formed itself and carries the new framing version, since the
/// old-style tag byte has only four tag bits and cannot hold tag 17.
/// An opaque variant's tag is one the codec does not recognize and
/// fits its tag byte: four bits under old framing, six under new. Any
/// body must fit a 32-bit frame length.
pub open spec fn spec_variant_wf(v: PacketVariantView) -> bool {
    match v {
        PacketVariantView::UserAttribute(ua) => spec_ua_wf(ua) && spec_ua_version(ua)
            == Version::New,
        PacketVariantView::Unknown { tag, version, body } => tag != USER_ATTRIBUTE_TAG
            && body.len() <= u32::MAX && (match version {
            Version::Old => tag < 16,
            Version::New => tag < 64,
        }),
    }
}

/// Dispatch of a raw packet's tag: the registered kind's parser for a
/// recognized tag, the verbatim fallback for every other. The parser
/// receives the already length-delimited body and consumes exactly
/// that slice.
pub open spec fn spec_dispatch(tag: u8, version: Version, body: Seq<u8>) -> Result<
    PacketVariantView,
    Error,
> {
    if tag == USER_ATTRIBUTE_TAG {
        match spec_parse_ua(version, body) {
            Ok(ua) => Ok(PacketVariantView::UserAttribute(ua)),
            Err(e) => Err(e),
        }
    } else {
        Ok(PacketVariantView::Unknown { tag, version, body })
    }
}

/// Decoding of one whole packet from the start of `s`: header, then
/// kind dispatch; the variant and the bytes consumed.
pub open spec fn spec_decode_packet(s: Seq<u8>) -> Result<(PacketVariantView, int), Error> {
    match spec_read_header(s) {
        Err(e) => Err(e),
        Ok((p, c)) => match spec_dispatch(p.tag, p.version, p.body) {
            Err(e) => Err(e),
            Ok(v) => Ok((v, c)),
        },
    }
}

/// The wire form of a variant: its tag byte in the framing style its
/// version selects, the shortest frame length of its body, the body.
pub open spec fn spec_encode_packet(v: PacketVariantView) -> Seq<u8> {
    let tag = spec_variant_tag(v);
    let body = spec_variant_body(v);
    match spec_variant_version(v) {
        Version::Old => seq![0x80u8 | (tag << 2) | spec_old_width_sel(body.len() as u32)]
            + spec_old_length_encoding(body.len() as u32) + body,
        Version::New => seq![0xc0u8 | tag] + spec_new_length_encoding(body.len() as u32) + body,
    }
}

/// The low two tag-byte bits that select the old-style length width.
pub open spec fn spec_old_width_sel(n: u32) -> u8 {
    if n < 0x100 {
        0
    } else if n < 0x10000 {
        1
    } else {
        2
    }
}

/// Maps a raw packet to its typed variant. A recognized tag runs the
/// registered parser on the length-delimited body; every other tag
/// succeeds with the verbatim fallback.
pub fn dispatch(tag: u8, version: Version, body: Vec<u8>) -> (r: Result<PacketVariant, Error>)
    ensures
        (match (r, spec_dispatch(tag, version, body@)) {
            (Ok(v), Ok(sv)) => v@ == sv,
            (Err(e), Err(se)) => e == se,
            _ => false,
        }),
{
    if tag == USER_ATTRIBUTE_TAG {
        match UserAttribute::from_slice(version, body.as_slice()) {
            Ok(ua) => Ok(PacketVariant::UserAttribute(ua)),
            Err(e) => Err(e),
        }
    } else {
        Ok(PacketVariant::Unknown { tag, version, body })
    }
}

/// Decodes one packet from the start of `s`, returning the typed
/// variant and the number of bytes consumed.
pub fn decode_packet(s: &[u8]) -> (r: Result<(PacketVariant, usize), Error>)
    ensures
        (match (r, spec_decode_packet(s@)) {
            (Ok((v, c)), Ok((sv, sc))) => v@ == sv && c as int == sc,
            (Err(e), Err(se)) => e == se,
            _ => false,
        }),
{
    match read_header(s) {
        Err(e) => Err(e),
        Ok((p, c)) => {
            let RawPacket { tag, version, body } = p;
            match dispatch(tag, version, body) {
                Err(e) => Err(e),
                Ok(v) => Ok((v, c)),
            }
        },
    }
}

impl PacketVariant {
    /// The tag this variant is framed under.
    pub fn tag(&self) -> (t: u8)
        ensures
            t == spec_variant_tag(self@),
    {
        match self {
            PacketVariant::UserAttribute(_) => USER_ATTRIBUTE_TAG,
            PacketVariant::Unknown { tag, .. } => *tag,
        }
    }

    /// The framing version this variant carries.
    pub fn version(&self) -> (v: Version)
        ensures
            v == spec_variant_version(self@),
    {
        match self {
            PacketVariant::UserAttribute(ua) => ua.packet_version(),
            PacketVariant::Unknown { version, .. } => *version,
        }
    }
}

impl Serialize for PacketVariant {
    open spec fn spec_body(&self) -> Seq<u8> {
        spec_variant_body(self@)
    }

    open spec fn spec_serialize_wf(&self) -> bool {
        spec_variant_wf(self@)
    }

    fn serialized_body_length(&self) -> (n: usize) {
        match self {
            PacketVariant::UserAttribute(ua) => ua.packet_len(),
            PacketVariant::Unknown { body, .. } => body.len(),
        }
    }

    fn write_body(&self, out: &mut Vec<u8>) {
        match self {
            PacketVariant::UserAttribute(ua) => ua.write_body(out),
            PacketVariant::Unknown { body, .. } => crate::util::push_bytes(out, body.as_slice()),
        }
    }
}

/// Encodes one packet in full wire form: the tag byte in the framing
/// style the variant's version selects, the shortest frame length,
/// then the body.
pub fn encode_packet(v: &PacketVariant, out: &mut Vec<u8>)
    requires
        spec_variant_wf(v@),
    ensures
        final(out)@ == old(out)@ + spec_encode_packet(v@),
{
    let tag: u8 = v.tag();
    let n: usize = v.serialized_body_length();
    match v.version() {
        Version::New => {
            out.push(0xc0 | tag);
            encode_new_length(n as u32, out);
            v.write_body(out);
            proof {
                assert(out@ =~= old(out)@ + spec_encode_packet(v@));
            }
        },
        Version::Old => {
            proof {
                assert(tag << 2 < 64 && (tag << 2) | 0x80u8 >= 0x80) by (bit_vector)
                    requires tag < 16u8;
            }
            let sel: u8 = if n < 0x100 {
                0
            } else if n < 0x10000 {
                1
            } else {
                2
            };
            out.push(0x80 | (tag << 2) | sel);
            encode_old_length(n as u32, out);
            v.write_body(out);
            proof {
                assert(out@ =~= old(out)@ + spec_encode_packet(v@));
            }
        },
    }
}

/// Law: decoding an encoded packet yields the identical variant, for
/// every well-formed variant, and consumes exactly the encoded bytes.
pub proof fn lemma_packet_round_trip(v: PacketVariantView)
    requires
        spec_variant_wf(v),
    ensures
        spec_decode_packet(spec_encode_packet(v)) == Ok::<(PacketVariantView, int), Error>(
            (v, spec_encode_packet(v).len() as int),
        ),
{
    let tag = spec_variant_tag(v);
    let body = spec_variant_body(v);
    let bn: u32 = body.len() as u32;
    let s = spec_encode_packet(v);
    match spec_variant_version(v) {
        Version::New => {
            let t0: u8 = 0xc0u8 | tag;
            assert(t0 & 0x80 != 0 && t0 & 0x40 != 0 && t0 & 0x3f == tag) by (bit_vector)
                requires
                    tag < 64u8,
                    t0 == 0xc0u8 | tag,
            ;
            assert(s[0] == t0);
            assert(s.skip(1) =~= spec_new_length_encoding(bn) + body);
            lemma_new_length_encoding_decodes(bn, body);
            let c = spec_new_length_encoding(bn).len() as int;
            assert((spec_new_length_encoding(bn) + body).subrange(c, c + bn) =~= body);
            assert(spec_read_new_body(s.skip(1)) == Ok::<(Seq<u8>, int), Error>(
                (body, c + bn),
            ));
            assert(spec_read_header(s) == Ok::<(RawPacketView, int), Error>(
                (RawPacketView { tag, version: Version::New, body }, 1 + c + bn),
            ));
            lemma_dispatch_restores(v);
            assert(s.len() == 1 + c + bn);
        },
        Version::Old => {
            let sel = spec_old_width_sel(bn);
            let t0: u8 = 0x80u8 | (tag << 2) | sel;
            assert(t0 & 0x80 != 0 && t0 & 0x40 == 0 && (t0 >> 2) & 0x0f == tag && t0 & 0x03
                == sel) by (bit_vector)
                requires
                    tag < 16u8,
                    sel < 3u8,
                    t0 == 0x80u8 | (tag << 2) | sel,
            ;
            assert(s[0] == t0);
            assert(s.skip(1) =~= spec_old_length_encoding(bn) + body);
            lemma_old_length_encoding_decodes(bn, body);
            let c = spec_old_length_width(bn);
            assert(s.subrange(1 + c, 1 + c + bn) =~= body);
            assert(spec_read_header(s) == Ok::<(RawPacketView, int), Error>(
                (RawPacketView { tag, version: Version::Old, body }, 1 + c + bn),
            ));
            lemma_dispatch_restores(v);
            assert(s.len() == 1 + c + bn);
        },
    }
}

/// Law: whenever dispatch accepts a body, the produced variant
/// serializes back to that body byte for byte — the identity holds on
/// the consumed byte range even for kinds and sub-types the codec
/// does not understand.
pub proof fn lemma_dispatch_then_serialize_identity(tag: u8, version: Version, body: Seq<u8>)
    requires
        spec_dispatch(tag, version, body) is Ok,
    ensures
        spec_variant_body(spec_dispatch(tag, version, body).unwrap()) == body,
{
    if tag == USER_ATTRIBUTE_TAG {
        crate::user_attribute::lemma_parse_then_serialize_identity(version, body);
    }
}

/// Dispatching a well-formed variant's own tag, version and body
/// yields the variant back.
proof fn lemma_dispatch_restores(v: PacketVariantView)
    requires
        spec_variant_wf(v),
    ensures
        spec_dispatch(spec_variant_tag(v), spec_variant_version(v), spec_variant_body(v)) == Ok::<
            PacketVariantView,
            Error,
        >(v),
{
    match v {
        PacketVariantView::UserAttribute(ua) => {
            lemma_ua_round_trip(ua);
        },
        PacketVariantView::Unknown { tag, version, body } => {
            assert(spec_dispatch(tag, version, body).unwrap() =~= v);
        },
    }
}

} // verus!
