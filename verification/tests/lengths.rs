use pgp_codec::lengths::{
    decode_new_length, decode_old_length, encode_new_length, encode_old_length, NewLength,
};
use pgp_codec::types::Error;

#[test]
fn new_length_one_byte_literal() {
    // A first byte below 192 is the length itself, consuming 1 byte.
    assert_eq!(decode_new_length(&[0x05]), Ok((NewLength::Fixed(5), 1)));
    assert_eq!(decode_new_length(&[0x00]), Ok((NewLength::Fixed(0), 1)));
    assert_eq!(decode_new_length(&[0xbf]), Ok((NewLength::Fixed(191), 1)));
}

#[test]
fn new_length_two_byte_offset_form() {
    // 0xC5 0x10 decodes per the offset formula: (0xC5-192)*256 + 0x10 + 192.
    assert_eq!(decode_new_length(&[0xc5, 0x10]), Ok((NewLength::Fixed(1488), 2)));
    assert_eq!(decode_new_length(&[0xc0, 0x00]), Ok((NewLength::Fixed(192), 2)));
    assert_eq!(decode_new_length(&[0xdf, 0xff]), Ok((NewLength::Fixed(8383), 2)));
}

#[test]
fn new_length_five_byte_literal() {
    // 0xFF introduces a literal 4-byte big-endian length.
    assert_eq!(
        decode_new_length(&[0xff, 0x00, 0x01, 0x00, 0x00]),
        Ok((NewLength::Fixed(0x10000), 5))
    );
    assert_eq!(
        decode_new_length(&[0xff, 0xde, 0xad, 0xbe, 0xef]),
        Ok((NewLength::Fixed(0xdeadbeef), 5))
    );
}

#[test]
fn new_length_partial_chunks() {
    // 224..=254 denote a partial chunk of 2^(byte & 0x1f) bytes.
    assert_eq!(decode_new_length(&[0xe0]), Ok((NewLength::Partial(1), 1)));
    assert_eq!(decode_new_length(&[0xe9]), Ok((NewLength::Partial(512), 1)));
    assert_eq!(decode_new_length(&[0xfe]), Ok((NewLength::Partial(1 << 30), 1)));
}

#[test]
fn new_length_truncated_is_incomplete() {
    assert_eq!(decode_new_length(&[]), Err(Error::IncompleteInput));
    assert_eq!(decode_new_length(&[0xc5]), Err(Error::IncompleteInput));
    assert_eq!(decode_new_length(&[0xff, 0x01, 0x02]), Err(Error::IncompleteInput));
}

#[test]
fn new_length_encoding_is_shortest() {
    let mut out = Vec::new();
    encode_new_length(5, &mut out);
    assert_eq!(out, vec![0x05]);

    let mut out = Vec::new();
    encode_new_length(191, &mut out);
    assert_eq!(out, vec![0xbf]);

    let mut out = Vec::new();
    encode_new_length(192, &mut out);
    assert_eq!(out, vec![0xc0, 0x00]);

    let mut out = Vec::new();
    encode_new_length(1488, &mut out);
    assert_eq!(out, vec![0xc5, 0x10]);

    let mut out = Vec::new();
    encode_new_length(8383, &mut out);
    assert_eq!(out, vec![0xdf, 0xff]);

    let mut out = Vec::new();
    encode_new_length(8384, &mut out);
    assert_eq!(out, vec![0xff, 0x00, 0x00, 0x20, 0xc0]);
}

#[test]
fn new_length_round_trips() {
    for n in [0u32, 1, 191, 192, 1488, 8383, 8384, 0x10000, u32::MAX] {
        let mut out = Vec::new();
        encode_new_length(n, &mut out);
        let width = out.len();
        out.push(0xab); // trailing bytes must not disturb the field
        assert_eq!(decode_new_length(&out), Ok((NewLength::Fixed(n), width)));
    }
}

#[test]
fn old_length_widths() {
    assert_eq!(decode_old_length(&[0x07], 1), Ok((7, 1)));
    assert_eq!(decode_old_length(&[0x01, 0x02], 2), Ok((0x102, 2)));
    assert_eq!(decode_old_length(&[0x01, 0x02, 0x03, 0x04], 4), Ok((0x1020304, 4)));
    assert_eq!(decode_old_length(&[0x01], 2), Err(Error::IncompleteInput));
}

#[test]
fn old_length_encoding_is_shortest() {
    let mut out = Vec::new();
    encode_old_length(255, &mut out);
    assert_eq!(out, vec![0xff]);

    let mut out = Vec::new();
    encode_old_length(256, &mut out);
    assert_eq!(out, vec![0x01, 0x00]);

    let mut out = Vec::new();
    encode_old_length(0x10000, &mut out);
    assert_eq!(out, vec![0x00, 0x01, 0x00, 0x00]);
}

#[test]
fn old_length_round_trips() {
    for n in [0u32, 255, 256, 65535, 65536, u32::MAX] {
        let mut out = Vec::new();
        encode_old_length(n, &mut out);
        let width = out.len();
        assert_eq!(decode_old_length(&out, width), Ok((n, width)));
    }
}
