//! Length codec: the framing length field that precedes every packet body.
//!
//! The protocol has two framing families. Old-style lengths are plain
//! big-endian integers whose byte width (1, 2 or 4) is selected by the
//! tag byte. New-style lengths are self-describing: the first byte's
//! value range selects a one-byte literal, a two-byte offset form, a
//! five-byte literal, or a partial-length chunk that signals the body
//! continues in a further chunk.

use vstd::prelude::*;

use crate::types::Error;

verus! {

/// Result of decoding one new-style length field.
#[derive(Debug, Clone, Copy, PartialEq, Eq, Structural)]
pub enum NewLength {
    /// A definite body length: this many bytes complete the body.
    Fixed(u32),
    /// A partial-length chunk: this many bytes follow, and then another
    /// length field continues the same body.
    Partial(u32),
}

/// Value of two big-endian bytes.
pub open spec fn spec_be16(b0: u8, b1: u8) -> u32 {
    ((b0 as u32) << 8) | (b1 as u32)
}

/// Value of four big-endian bytes.
pub open spec fn spec_be32(b0: u8, b1: u8, b2: u8, b3: u8) -> u32 {
    ((b0 as u32) << 24) | ((b1 as u32) << 16) | ((b2 as u32) << 8) | (b3 as u32)
}

/// Decoding of a new-style length field found at the start of `s`:
/// the decoded length and the number of bytes it occupied, or the
/// error when the field is absent or truncated.
pub open spec fn spec_decode_new_length(s: Seq<u8>) -> Result<(NewLength, int), Error> {
    if s.len() < 1 {
        Err(Error::IncompleteInput)
    } else if s[0] < 192 {
        Ok((NewLength::Fixed(s[0] as u32), 1))
    } else if s[0] < 224 {
        if s.len() < 2 {
            Err(Error::IncompleteInput)
        } else {
            Ok((NewLength::Fixed((((((s[0] - 192) as u32) << 8) + (s[1] as u32) + 192) as u32)), 2))
        }
    } else if s[0] == 255 {
        if s.len() < 5 {
            Err(Error::IncompleteInput)
        } else {
            Ok((NewLength::Fixed(spec_be32(s[1], s[2], s[3], s[4])), 5))
        }
    } else {
        Ok((NewLength::Partial(1u32 << ((s[0] & 0x1f) as u32)), 1))
    }
}

/// The shortest correct new-style encoding of a definite length: one
/// byte below 192, the two-byte offset form up to 8383, the five-byte
/// form beyond. Encoding always chooses this canonical form.
pub open spec fn spec_new_length_encoding(n: u32) -> Seq<u8> {
    if n < 192 {
        seq![n as u8]
    } else if n < 8384 {
        seq![((((n - 192) as u32) >> 8) + 192) as u8, (((n - 192) as u32) & 0xff) as u8]
    } else {
        seq![
            255u8,
            ((n >> 24) & 0xff) as u8,
            ((n >> 16) & 0xff) as u8,
            ((n >> 8) & 0xff) as u8,
            (n & 0xff) as u8,
        ]
    }
}

/// Decoding of an old-style length of the given width (1, 2 or 4
/// bytes) found at the start of `s`. The indeterminate width is the
/// header reader's concern and has no length field at all.
pub open spec fn spec_decode_old_length(s: Seq<u8>, width: int) -> Result<(u32, int), Error> {
    if s.len() < width {
        Err(Error::IncompleteInput)
    } else if width == 1 {
        Ok((s[0] as u32, 1))
    } else if width == 2 {
        Ok((spec_be16(s[0], s[1]), 2))
    } else {
        Ok((spec_be32(s[0], s[1], s[2], s[3]), 4))
    }
}

/// The narrowest old-style width that can hold `n`: 1, 2 or 4 bytes.
pub open spec fn spec_old_length_width(n: u32) -> int {
    if n < 0x100 {
        1
    } else if n < 0x10000 {
        2
    } else {
        4
    }
}

/// The shortest old-style encoding of a length: big-endian bytes of
/// the width `spec_old_length_width` selects.
pub open spec fn spec_old_length_encoding(n: u32) -> Seq<u8> {
    if n < 0x100 {
        seq![n as u8]
    } else if n < 0x10000 {
        seq![((n >> 8) & 0xff) as u8, (n & 0xff) as u8]
    } else {
        seq![
            ((n >> 24) & 0xff) as u8,
            ((n >> 16) & 0xff) as u8,
            ((n >> 8) & 0xff) as u8,
            (n & 0xff) as u8,
        ]
    }
}

/// Reads one new-style length field from the start of `s`, returning
/// the decoded length and the number of bytes consumed. A partial
/// chunk is surfaced as `NewLength::Partial` so the caller can keep
/// accumulating body bytes across chunks.
pub fn decode_new_length(s: &[u8]) -> (r: Result<(NewLength, usize), Error>)
    ensures
        (match (r, spec_decode_new_length(s@)) {
            (Ok((l, c)), Ok((sl, sc))) => l == sl && c as int == sc,
            (Err(e), Err(se)) => e == se,
            _ => false,
        }),
{
    if s.len() < 1 {
        return Err(Error::IncompleteInput);
    }
    let b0: u8 = *vstd::slice::slice_index_get(s, 0);
    if b0 < 192 {
        Ok((NewLength::Fixed(b0 as u32), 1))
    } else if b0 < 224 {
        if s.len() < 2 {
            return Err(Error::IncompleteInput);
        }
        let b1: u8 = *vstd::slice::slice_index_get(s, 1);
        let d0: u32 = (b0 - 192) as u32;
        proof {
            assert(d0 << 8 <= 7936) by (bit_vector)
                requires d0 < 32u32;
        }
        Ok((NewLength::Fixed((d0 << 8) + (b1 as u32) + 192), 2))
    } else if b0 == 255 {
        if s.len() < 5 {
            return Err(Error::IncompleteInput);
        }
        let b1: u8 = *vstd::slice::slice_index_get(s, 1);
        let b2: u8 = *vstd::slice::slice_index_get(s, 2);
        let b3: u8 = *vstd::slice::slice_index_get(s, 3);
        let b4: u8 = *vstd::slice::slice_index_get(s, 4);
        Ok((NewLength::Fixed(
            ((b1 as u32) << 24) | ((b2 as u32) << 16) | ((b3 as u32) << 8) | (b4 as u32),
        ), 5))
    } else {
        let sh: u8 = b0 & 0x1f;
        proof {
            assert(b0 & 0x1f < 32) by (bit_vector);
        }
        Ok((NewLength::Partial(1u32 << (sh as u32)), 1))
    }
}

/// Appends the shortest new-style encoding of `n` to `out`.
pub fn encode_new_length(n: u32, out: &mut Vec<u8>)
    ensures
        final(out)@ == old(out)@ + spec_new_length_encoding(n),
{
    if n < 192 {
        out.push(n as u8);
        assert(final(out)@ =~= old(out)@ + spec_new_length_encoding(n));
    } else if n < 8384 {
        let d: u32 = n - 192;
        proof {
            assert((d >> 8) < 32 && (d & 0xff) < 256) by (bit_vector)
                requires d < 8192u32;
        }
        let hi: u32 = (d >> 8) + 192;
        let lo: u32 = d & 0xff;
        out.push(hi as u8);
        out.push(lo as u8);
        assert(final(out)@ =~= old(out)@ + spec_new_length_encoding(n));
    } else {
        proof {
            lemma_u32_byte_masks(n);
        }
        out.push(255u8);
        out.push(((n >> 24) & 0xff) as u8);
        out.push(((n >> 16) & 0xff) as u8);
        out.push(((n >> 8) & 0xff) as u8);
        out.push((n & 0xff) as u8);
        assert(final(out)@ =~= old(out)@ + spec_new_length_encoding(n));
    }
}

/// Each masked byte of a 32-bit value fits in eight bits.
proof fn lemma_u32_byte_masks(n: u32)
    ensures
        (n >> 24) & 0xff < 256,
        (n >> 16) & 0xff < 256,
        (n >> 8) & 0xff < 256,
        n & 0xff < 256,
{
    assert(((n >> 24) & 0xff < 256) && ((n >> 16) & 0xff < 256) && ((n >> 8) & 0xff < 256)
        && (n & 0xff < 256)) by (bit_vector);
}

/// Reads one old-style length of the given width from the start of `s`.
pub fn decode_old_length(s: &[u8], width: usize) -> (r: Result<(u32, usize), Error>)
    requires
        width == 1 || width == 2 || width == 4,
    ensures
        (match (r, spec_decode_old_length(s@, width as int)) {
            (Ok((l, c)), Ok((sl, sc))) => l == sl && c as int == sc,
            (Err(e), Err(se)) => e == se,
            _ => false,
        }),
{
    if s.len() < width {
        return Err(Error::IncompleteInput);
    }
    if width == 1 {
        let b0: u8 = *vstd::slice::slice_index_get(s, 0);
        Ok((b0 as u32, 1))
    } else if width == 2 {
        let b0: u8 = *vstd::slice::slice_index_get(s, 0);
        let b1: u8 = *vstd::slice::slice_index_get(s, 1);
        Ok((((b0 as u32) << 8) | (b1 as u32), 2))
    } else {
        let b0: u8 = *vstd::slice::slice_index_get(s, 0);
        let b1: u8 = *vstd::slice::slice_index_get(s, 1);
        let b2: u8 = *vstd::slice::slice_index_get(s, 2);
        let b3: u8 = *vstd::slice::slice_index_get(s, 3);
        Ok((((b0 as u32) << 24) | ((b1 as u32) << 16) | ((b2 as u32) << 8) | (b3 as u32), 4))
    }
}

/// Appends the shortest old-style encoding of `n` to `out`.
pub fn encode_old_length(n: u32, out: &mut Vec<u8>)
    ensures
        final(out)@ == old(out)@ + spec_old_length_encoding(n),
        final(out)@.len() == old(out)@.len() + spec_old_length_width(n),
{
    if n < 0x100 {
        out.push(n as u8);
        assert(final(out)@ =~= old(out)@ + spec_old_length_encoding(n));
    } else if n < 0x10000 {
        proof {
            lemma_u32_byte_masks(n);
        }
        let hi: u32 = (n >> 8) & 0xff;
        let lo: u32 = n & 0xff;
        out.push(hi as u8);
        out.push(lo as u8);
        assert(final(out)@ =~= old(out)@ + spec_old_length_encoding(n));
    } else {
        proof {
            lemma_u32_byte_masks(n);
        }
        out.push(((n >> 24) & 0xff) as u8);
        out.push(((n >> 16) & 0xff) as u8);
        out.push(((n >> 8) & 0xff) as u8);
        out.push((n & 0xff) as u8);
        assert(final(out)@ =~= old(out)@ + spec_old_length_encoding(n));
    }
}

/// Decoding inverts the shortest new-style encoding: whatever bytes
/// follow the field, the decoded length is the encoded one and exactly
/// the field's bytes are consumed.
pub proof fn lemma_new_length_encoding_decodes(n: u32, rest: Seq<u8>)
    ensures
        spec_decode_new_length(spec_new_length_encoding(n) + rest) == Ok::<
            (NewLength, int),
            Error,
        >((NewLength::Fixed(n), spec_new_length_encoding(n).len() as int)),
{
    let enc = spec_new_length_encoding(n);
    let s = enc + rest;
    if n < 192 {
        assert(s[0] == n as u8);
    } else if n < 8384 {
        let d: u32 = (n - 192) as u32;
        let hi: u8 = (((n - 192) as u32 >> 8) + 192) as u8;
        let lo: u8 = ((n - 192) as u32 & 0xff) as u8;
        assert(s[0] == hi && s[1] == lo);
        assert(192 <= hi && hi < 224) by (bit_vector)
            requires
                d < 8192u32,
                hi == ((d >> 8) + 192) as u8,
        ;
        assert(((hi - 192) as u32) << 8 <= 7936 && (((hi - 192) as u32) << 8) + (lo as u32) + 192
            == n) by (bit_vector)
            requires
                d < 8192u32,
                hi == ((d >> 8) + 192) as u8,
                lo == (d & 0xff) as u8,
                n == d + 192u32,
        ;
    } else {
        let b1: u8 = ((n >> 24) & 0xff) as u8;
        let b2: u8 = ((n >> 16) & 0xff) as u8;
        let b3: u8 = ((n >> 8) & 0xff) as u8;
        let b4: u8 = (n & 0xff) as u8;
        assert(s[0] == 255u8 && s[1] == b1 && s[2] == b2 && s[3] == b3 && s[4] == b4);
        assert(((b1 as u32) << 24) | ((b2 as u32) << 16) | ((b3 as u32) << 8) | (b4 as u32)
            == n) by (bit_vector)
            requires
                b1 == ((n >> 24) & 0xff) as u8,
                b2 == ((n >> 16) & 0xff) as u8,
                b3 == ((n >> 8) & 0xff) as u8,
                b4 == (n & 0xff) as u8,
        ;
    }
}

/// Decoding at the width the encoder chose inverts the shortest
/// old-style encoding, whatever bytes follow it.
pub proof fn lemma_old_length_encoding_decodes(n: u32, rest: Seq<u8>)
    ensures
        spec_decode_old_length(spec_old_length_encoding(n) + rest, spec_old_length_width(n))
            == Ok::<(u32, int), Error>((n, spec_old_length_width(n))),
{
    let enc = spec_old_length_encoding(n);
    let s = enc + rest;
    if n < 0x100 {
        assert(s[0] == n as u8);
    } else if n < 0x10000 {
        let b0: u8 = ((n >> 8) & 0xff) as u8;
        let b1: u8 = (n & 0xff) as u8;
        assert(s[0] == b0 && s[1] == b1);
        assert(((b0 as u32) << 8) | (b1 as u32) == n) by (bit_vector)
            requires
                n < 0x10000u32,
                b0 == ((n >> 8) & 0xff) as u8,
                b1 == (n & 0xff) as u8,
        ;
    } else {
        let b0: u8 = ((n >> 24) & 0xff) as u8;
        let b1: u8 = ((n >> 16) & 0xff) as u8;
        let b2: u8 = ((n >> 8) & 0xff) as u8;
        let b3: u8 = (n & 0xff) as u8;
        assert(s[0] == b0 && s[1] == b1 && s[2] == b2 && s[3] == b3);
        assert(((b0 as u32) << 24) | ((b1 as u32) << 16) | ((b2 as u32) << 8) | (b3 as u32)
            == n) by (bit_vector)
            requires
                b0 == ((n >> 24) & 0xff) as u8,
                b1 == ((n >> 16) & 0xff) as u8,
                b2 == ((n >> 8) & 0xff) as u8,
                b3 == (n & 0xff) as u8,
        ;
    }
}

} // verus!
