use pgp_codec::ser::Serialize;
use pgp_codec::types::{Error, Version};
use pgp_codec::user_attribute::UserAttribute;

#[test]
fn scenario_image_body() {
    // Sub-type 1, header-length field 4 (little endian) => header of 2
    // bytes, the remaining 3 bytes are image data.
    let body = [0x01, 0x04, 0x00, 0xaa, 0xbb, 0xcc, 0xdd, 0xee];
    let ua = UserAttribute::from_slice(Version::New, &body).unwrap();
    assert_eq!(
        ua,
        UserAttribute::Image {
            packet_version: Version::New,
            header: vec![0xaa, 0xbb],
            data: vec![0xcc, 0xdd, 0xee],
        }
    );
    assert_eq!(ua.packet_len(), 8);
    assert_eq!(ua.to_u8(), 1);
    assert_eq!(ua.packet_version(), Version::New);

    let mut out = Vec::new();
    ua.write_body(&mut out);
    assert_eq!(out, body);
}

#[test]
fn scenario_unknown_body() {
    // Sub-type 0x42 is unrecognized: the payload is kept verbatim.
    let body = [0x42, 0x01, 0x02, 0x03];
    let ua = UserAttribute::from_slice(Version::New, &body).unwrap();
    assert_eq!(
        ua,
        UserAttribute::Unknown {
            packet_version: Version::New,
            typ: 0x42,
            data: vec![0x01, 0x02, 0x03],
        }
    );
    assert_eq!(ua.packet_len(), 4);
    assert_eq!(ua.to_u8(), 0x42);

    let mut out = Vec::new();
    ua.write_body(&mut out);
    assert_eq!(out, body);
}

#[test]
fn header_length_field_counts_itself() {
    // Encoding an image writes len(header) + 2 into the on-wire field.
    let ua = UserAttribute::Image {
        packet_version: Version::New,
        header: vec![0x11, 0x22, 0x33],
        data: vec![0x44],
    };
    let mut out = Vec::new();
    ua.write_body(&mut out);
    assert_eq!(out, [0x01, 0x05, 0x00, 0x11, 0x22, 0x33, 0x44]);

    // ... and decoding subtracts the field's own two bytes again.
    let back = UserAttribute::from_slice(Version::New, &out).unwrap();
    assert_eq!(back, ua);
}

#[test]
fn header_length_field_is_little_endian() {
    // A 300-byte header stores 302 = 0x012E as 2E 01, low byte first.
    let ua = UserAttribute::Image {
        packet_version: Version::New,
        header: vec![0x55; 300],
        data: vec![],
    };
    let mut out = Vec::new();
    ua.write_body(&mut out);
    assert_eq!(out[0], 0x01);
    assert_eq!(out[1], 0x2e);
    assert_eq!(out[2], 0x01);
    assert_eq!(out.len(), 303);
    assert_eq!(ua.serialized_body_length(), 303);
    assert_eq!(UserAttribute::from_slice(Version::New, &out).unwrap(), ua);
}

#[test]
fn underflow_field_zero_rejected() {
    // A header-length field of 0 would count fewer bytes than the
    // field itself occupies.
    let body = [0x01, 0x00, 0x00, 0xaa, 0xbb];
    assert_eq!(
        UserAttribute::from_slice(Version::New, &body),
        Err(Error::InvalidStructure)
    );
}

#[test]
fn underflow_field_one_rejected() {
    let body = [0x01, 0x01, 0x00, 0xaa, 0xbb];
    assert_eq!(
        UserAttribute::from_slice(Version::New, &body),
        Err(Error::InvalidStructure)
    );
}

#[test]
fn empty_body_rejected() {
    // A body without even the sub-type byte is structurally invalid.
    assert_eq!(
        UserAttribute::from_slice(Version::New, &[]),
        Err(Error::InvalidStructure)
    );
}

#[test]
fn image_body_shorter_than_fields_rejected() {
    // Sub-type 1 with the length field cut off.
    assert_eq!(
        UserAttribute::from_slice(Version::New, &[0x01, 0x04]),
        Err(Error::InvalidStructure)
    );
    // Declared header longer than the remaining body.
    assert_eq!(
        UserAttribute::from_slice(Version::New, &[0x01, 0x0a, 0x00, 0xaa]),
        Err(Error::InvalidStructure)
    );
}

#[test]
fn unknown_preserves_arbitrary_payload() {
    // Any unrecognized sub-type with arbitrary trailing bytes
    // re-encodes to exactly the sub-type byte followed by the bytes.
    for typ in [0x00u8, 0x02, 0x7f, 0xff] {
        let mut body = vec![typ];
        body.extend_from_slice(&[0xde, 0xad, 0x00, 0xbe, 0xef]);
        let ua = UserAttribute::from_slice(Version::Old, &body).unwrap();
        assert_eq!(ua.to_u8(), typ);
        assert_eq!(ua.packet_version(), Version::Old);
        let mut out = Vec::new();
        ua.write_body(&mut out);
        assert_eq!(out, body);
    }
}

#[test]
fn image_with_empty_header_and_data() {
    // Field value 2 means an empty header; no data bytes follow.
    let body = [0x01, 0x02, 0x00];
    let ua = UserAttribute::from_slice(Version::New, &body).unwrap();
    assert_eq!(
        ua,
        UserAttribute::Image {
            packet_version: Version::New,
            header: vec![],
            data: vec![],
        }
    );
    assert_eq!(ua.packet_len(), 3);
    let mut out = Vec::new();
    ua.write_body(&mut out);
    assert_eq!(out, body);
}

#[test]
fn to_writer_prefixes_frame_length() {
    let ua = UserAttribute::Unknown {
        packet_version: Version::New,
        typ: 0x42,
        data: vec![0x01, 0x02, 0x03],
    };
    let mut out = Vec::new();
    ua.to_writer(&mut out);
    assert_eq!(out, [0x04, 0x42, 0x01, 0x02, 0x03]);
}

#[test]
fn serialized_length_matches_written_bytes() {
    let values = [
        UserAttribute::Image {
            packet_version: Version::New,
            header: vec![0xaa, 0xbb],
            data: vec![0xcc; 500],
        },
        UserAttribute::Unknown {
            packet_version: Version::Old,
            typ: 0x99,
            data: vec![],
        },
    ];
    for ua in values {
        let mut out = Vec::new();
        ua.write_body(&mut out);
        assert_eq!(ua.serialized_body_length(), out.len());
        assert_eq!(ua.packet_len(), out.len());
    }
}
