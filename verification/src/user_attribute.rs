//! User Attribute packet: the exemplar of nested sub-type dispatch.
//!
//! The body of this packet kind carries its own selector byte. Sub-type
//! 1 is an Image layout: a two-byte little-endian header-length field
//! (which counts its own two bytes), the header, and then the image
//! data filling the rest of the body. Every other sub-type is kept
//! verbatim in an opaque fallback so it survives a round trip.

use vstd::prelude::*;

use crate::types::{Error, Version};
use crate::lengths::{encode_new_length, spec_new_length_encoding};
use crate::util::push_bytes;

verus! {

/// A decoded User Attribute packet body.
#[derive(Debug, PartialEq, Eq, Clone)]
pub enum UserAttribute {
    /// Sub-type 1: an image header and the image data.
    Image { packet_version: Version, header: Vec<u8>, data: Vec<u8> },
    /// Any other sub-type, preserved byte for byte.
    Unknown { packet_version: Version, typ: u8, data: Vec<u8> },
}

/// Mathematical model of a `UserAttribute`.
#[verifier::ext_equal]
pub enum UserAttributeView {
    Image { packet_version: Version, header: Seq<u8>, data: Seq<u8> },
    Unknown { packet_version: Version, typ: u8, data: Seq<u8> },
}

impl View for UserAttribute {
    type V = UserAttributeView;

    open spec fn view(&self) -> UserAttributeView {
        match self {
            UserAttribute::Image { packet_version, header, data } => UserAttributeView::Image {
                packet_version: *packet_version,
                header: header@,
                data: data@,
            },
            UserAttribute::Unknown { packet_version, typ, data } => UserAttributeView::Unknown {
                packet_version: *packet_version,
                typ: *typ,
                data: data@,
            },
        }
    }
}

/// Two little-endian bytes of a 16-bit value. The header-length field
/// is the one little-endian quantity of the format, kept behind this
/// single pair of functions so the quirk cannot leak elsewhere.
pub open spec fn spec_le16(n: u16) -> Seq<u8> {
    seq![(n & 0xff) as u8, ((n >> 8) & 0xff) as u8]
}

/// The sub-type selector byte a value serializes under.
pub open spec fn spec_ua_subtype(v: UserAttributeView) -> u8 {
    match v {
        UserAttributeView::Image { .. } => 1,
        UserAttributeView::Unknown { typ, .. } => typ,
    }
}

/// The framing version a value was constructed with.
pub open spec fn spec_ua_version(v: UserAttributeView) -> Version {
    match v {
        UserAttributeView::Image { packet_version, .. } => packet_version,
        UserAttributeView::Unknown { packet_version, .. } => packet_version,
    }
}

/// The serialized body: the sub-type byte, then for an image the
/// two-byte little-endian header-length field (the header length plus
/// the field's own two bytes), the header, and the image data; for an
/// unknown sub-type the stored bytes verbatim.
pub open spec fn spec_ua_body(v: UserAttributeView) -> Seq<u8> {
    match v {
        UserAttributeView::Image { header, data, .. } => seq![1u8] + spec_le16(
            (header.len() + 2) as u16,
        ) + header + data,
        UserAttributeView::Unknown { typ, data, .. } => seq![typ] + data,
    }
}

/// Well-formedness of a value for encoding: an image's header plus the
/// field's two bytes must fit the 16-bit field, an unknown sub-type is
/// by definition not the recognized image sub-type, and the whole body
/// must fit a 32-bit frame length.
pub open spec fn spec_ua_wf(v: UserAttributeView) -> bool {
    match v {
        UserAttributeView::Image { header, data, .. } => header.len() + 2 <= 0xffff && 3
            + header.len() + data.len() <= u32::MAX,
        UserAttributeView::Unknown { typ, data, .. } => typ != 1 && 1 + data.len() <= u32::MAX,
    }
}

/// Parse of a length-delimited body slice. The enclosing frame already
/// fixed the body's extent, so a body that ends inside a mandatory
/// field is structurally invalid rather than incomplete: more input
/// could not mend it. A header-length field below 2 would have to
/// count fewer bytes than the field itself occupies and is rejected
/// the same way. An unrecognized sub-type never fails: its payload is
/// kept verbatim.
pub open spec fn spec_parse_ua(packet_version: Version, s: Seq<u8>) -> Result<
    UserAttributeView,
    Error,
> {
    if s.len() == 0 {
        Err(Error::InvalidStructure)
    } else if s[0] == 1 {
        if s.len() < 3 {
            Err(Error::InvalidStructure)
        } else {
            let field = (s[1] as int) + 256 * (s[2] as int);
            if field < 2 {
                Err(Error::InvalidStructure)
            } else if s.len() - 3 < field - 2 {
                Err(Error::InvalidStructure)
            } else {
                Ok(
                    UserAttributeView::Image {
                        packet_version,
                        header: s.subrange(3, 3 + (field - 2)),
                        data: s.subrange(3 + (field - 2), s.len() as int),
                    },
                )
            }
        }
    } else {
        Ok(
            UserAttributeView::Unknown {
                packet_version,
                typ: s[0],
                data: s.subrange(1, s.len() as int),
            },
        )
    }
}

/// The two bytes of a 16-bit value recombine to the value, and each
/// fits in eight bits.
proof fn lemma_le16_recombines(f: u16)
    ensures
        f & 0xff < 256,
        (f >> 8) & 0xff < 256,
        (((f & 0xff) as u8) as int) + 256 * ((((f >> 8) & 0xff) as u8) as int) == f as int,
{
    assert((f & 0xff < 256) && ((f >> 8) & 0xff < 256) && ((((f & 0xff) as u8) as int) + 256 * ((((
    f >> 8) & 0xff) as u8) as int) == f as int)) by (bit_vector);
}

impl UserAttribute {
    /// Parses a `UserAttribute` from a length-delimited body slice.
    pub fn from_slice(packet_version: Version, input: &[u8]) -> (r: Result<Self, Error>)
        ensures
            (match (r, spec_parse_ua(packet_version, input@)) {
                (Ok(ua), Ok(v)) => ua@ == v,
                (Err(e), Err(se)) => e == se,
                _ => false,
            }),
    {
        if input.len() == 0 {
            return Err(Error::InvalidStructure);
        }
        let typ: u8 = *vstd::slice::slice_index_get(input, 0);
        if typ == 1 {
            if input.len() < 3 {
                return Err(Error::InvalidStructure);
            }
            let b1: u8 = *vstd::slice::slice_index_get(input, 1);
            let b2: u8 = *vstd::slice::slice_index_get(input, 2);
            let field: usize = (b1 as usize) + 256 * (b2 as usize);
            if field < 2 {
                return Err(Error::InvalidStructure);
            }
            let header_len: usize = field - 2;
            if input.len() - 3 < header_len {
                return Err(Error::InvalidStructure);
            }
            let header: Vec<u8> = vstd::slice::slice_to_vec(
                vstd::slice::slice_subrange(input, 3, 3 + header_len),
            );
            let data: Vec<u8> = vstd::slice::slice_to_vec(
                vstd::slice::slice_subrange(input, 3 + header_len, input.len()),
            );
            let ua = UserAttribute::Image { packet_version, header, data };
            proof {
                assert(ua@ =~= spec_parse_ua(packet_version, input@).unwrap());
            }
            Ok(ua)
        } else {
            let data: Vec<u8> = vstd::slice::slice_to_vec(
                vstd::slice::slice_subrange(input, 1, input.len()),
            );
            let ua = UserAttribute::Unknown { packet_version, typ, data };
            proof {
                assert(ua@ =~= spec_parse_ua(packet_version, input@).unwrap());
            }
            Ok(ua)
        }
    }

    /// The sub-type byte this value serializes under.
    pub fn to_u8(&self) -> (r: u8)
        ensures
            r == spec_ua_subtype(self@),
    {
        match *self {
            UserAttribute::Image { .. } => 1,
            UserAttribute::Unknown { typ, .. } => typ,
        }
    }

    /// The framing version this value was constructed with.
    pub fn packet_version(&self) -> (v: Version)
        ensures
            v == spec_ua_version(self@),
    {
        match self {
            UserAttribute::Image { packet_version, .. } => *packet_version,
            UserAttribute::Unknown { packet_version, .. } => *packet_version,
        }
    }

    /// The body length reported to the enclosing frame: the sub-type
    /// byte, for an image the two-byte header-length field, the header
    /// and the image data; for an unknown sub-type the stored bytes.
    /// This equals the exact number of bytes `write_body` emits.
    pub fn packet_len(&self) -> (n: usize)
        requires
            spec_ua_wf(self@),
        ensures
            n == spec_ua_body(self@).len(),
    {
        match self {
            UserAttribute::Image { header, data, .. } => 1 + 2 + header.len() + data.len(),
            UserAttribute::Unknown { data, .. } => 1 + data.len(),
        }
    }

    /// Emits the serialized body, the exact inverse of `from_slice`.
    pub fn write_body(&self, out: &mut Vec<u8>)
        requires
            spec_ua_wf(self@),
        ensures
            final(out)@ == old(out)@ + spec_ua_body(self@),
    {
        match self {
            UserAttribute::Image { header, data, .. } => {
                let field: u16 = (header.len() + 2) as u16;
                proof {
                    lemma_le16_recombines(field);
                }
                out.push(1u8);
                out.push((field & 0xff) as u8);
                out.push(((field >> 8) & 0xff) as u8);
                push_bytes(out, header.as_slice());
                push_bytes(out, data.as_slice());
                proof {
                    assert(out@ =~= old(out)@ + spec_ua_body(self@));
                }
            },
            UserAttribute::Unknown { typ, data, .. } => {
                out.push(*typ);
                push_bytes(out, data.as_slice());
                proof {
                    assert(out@ =~= old(out)@ + spec_ua_body(self@));
                }
            },
        }
    }

    /// Serializes the whole packet body record: the enclosing frame's
    /// length field (the shortest new-style encoding of the body
    /// length), then the body itself.
    pub fn to_writer(&self, out: &mut Vec<u8>)
        requires
            spec_ua_wf(self@),
        ensures
            final(out)@ == old(out)@ + spec_new_length_encoding(
                spec_ua_body(self@).len() as u32,
            ) + spec_ua_body(self@),
    {
        let n: usize = self.packet_len();
        encode_new_length(n as u32, out);
        self.write_body(out);
    }
}

impl crate::ser::Serialize for UserAttribute {
    open spec fn spec_body(&self) -> Seq<u8> {
        spec_ua_body(self@)
    }

    open spec fn spec_serialize_wf(&self) -> bool {
        spec_ua_wf(self@)
    }

    fn serialized_body_length(&self) -> (n: usize) {
        self.packet_len()
    }

    fn write_body(&self, out: &mut Vec<u8>) {
        self.write_body(out)
    }
}

/// Law: serialization then parsing is the identity on every
/// well-formed value, under the value's own framing version.
pub proof fn lemma_ua_round_trip(v: UserAttributeView)
    requires
        spec_ua_wf(v),
    ensures
        spec_parse_ua(spec_ua_version(v), spec_ua_body(v)) == Ok::<UserAttributeView, Error>(v),
{
    let s = spec_ua_body(v);
    match v {
        UserAttributeView::Image { packet_version, header, data } => {
            let f: u16 = (header.len() + 2) as u16;
            lemma_le16_recombines(f);
            assert(s[0] == 1u8);
            assert(s[1] == (f & 0xff) as u8 && s[2] == ((f >> 8) & 0xff) as u8);
            assert((s[1] as int) + 256 * (s[2] as int) == header.len() + 2);
            assert(s.subrange(3, 3 + header.len() as int) =~= header);
            assert(s.subrange(3 + header.len() as int, s.len() as int) =~= data);
            assert(spec_parse_ua(packet_version, s).unwrap() =~= v);
        },
        UserAttributeView::Unknown { packet_version, typ, data } => {
            assert(s[0] == typ);
            assert(s.subrange(1, s.len() as int) =~= data);
            assert(spec_parse_ua(packet_version, s).unwrap() =~= v);
        },
    }
}

/// Law: an image body's on-wire header-length field is the header
/// length plus two, and serializing an image then parsing it yields
/// the identical header and image data.
pub proof fn lemma_image_header_symmetry(packet_version: Version, header: Seq<u8>, data: Seq<u8>)
    requires
        spec_ua_wf(UserAttributeView::Image { packet_version, header, data }),
    ensures
        ({
            let body = spec_ua_body(UserAttributeView::Image { packet_version, header, data });
            &&& body.subrange(1, 3) == spec_le16((header.len() + 2) as u16)
            &&& spec_parse_ua(packet_version, body) == Ok::<UserAttributeView, Error>(
                UserAttributeView::Image { packet_version, header, data },
            )
        }),
{
    let v = UserAttributeView::Image { packet_version, header, data };
    lemma_ua_round_trip(v);
    assert(spec_ua_body(v).subrange(1, 3) =~= spec_le16((header.len() + 2) as u16));
}

/// Law: a body whose image header-length field is 0 or 1 would have
/// to count fewer bytes than the field itself occupies; it fails with
/// `InvalidStructure`, never a silent wraparound.
pub proof fn lemma_underflow_rejected(packet_version: Version, s: Seq<u8>)
    requires
        s.len() >= 3,
        s[0] == 1,
        (s[1] as int) + 256 * (s[2] as int) < 2,
    ensures
        spec_parse_ua(packet_version, s) == Err::<UserAttributeView, Error>(
            Error::InvalidStructure,
        ),
{
}

/// Law: parsing a body and serializing the result reproduces the body
/// byte for byte, for every body the parser accepts: no byte is
/// dropped, added or reordered on a round trip.
pub proof fn lemma_parse_then_serialize_identity(packet_version: Version, s: Seq<u8>)
    requires
        spec_parse_ua(packet_version, s) is Ok,
    ensures
        spec_ua_body(spec_parse_ua(packet_version, s).unwrap()) == s,
{
    if s[0] == 1 {
        let b1: u8 = s[1];
        let b2: u8 = s[2];
        let field = (b1 as int) + 256 * (b2 as int);
        assert(((b1 + 256 * b2) as u16) & 0xff == b1 && (((b1 + 256 * b2) as u16) >> 8) & 0xff
            == b2) by (bit_vector);
        assert(spec_le16(field as u16) =~= seq![b1, b2]);
        assert(spec_ua_body(spec_parse_ua(packet_version, s).unwrap()) =~= s);
    } else {
        assert(spec_ua_body(spec_parse_ua(packet_version, s).unwrap()) =~= s);
    }
}

/// Law: a body with an unrecognized sub-type byte, whatever its
/// payload, parses to the opaque fallback, and serializing that
/// fallback reproduces the body byte for byte.
pub proof fn lemma_unknown_preserved(packet_version: Version, s: Seq<u8>)
    requires
        s.len() >= 1,
        s[0] != 1,
    ensures
        spec_parse_ua(packet_version, s) == Ok::<UserAttributeView, Error>(
            UserAttributeView::Unknown {
                packet_version,
                typ: s[0],
                data: s.subrange(1, s.len() as int),
            },
        ),
        spec_ua_body(spec_parse_ua(packet_version, s).unwrap()) == s,
{
    assert(spec_ua_body(spec_parse_ua(packet_version, s).unwrap()) =~= s);
}

} // verus!
