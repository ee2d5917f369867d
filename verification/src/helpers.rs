//! Little-endian field decoding and ASCII case folding, the leaf
//! utilities every other module builds on.

use vstd::prelude::*;

verus! {

/// Value of the two little-endian bytes of `b` starting at `off`.
pub open spec fn spec_le16(b: Seq<u8>, off: int) -> int {
    b[off] + 256 * b[off + 1]
}

/// Value of the four little-endian bytes of `b` starting at `off`.
pub open spec fn spec_le32(b: Seq<u8>, off: int) -> int {
    b[off] + 256 * b[off + 1] + 65536 * b[off + 2] + 16777216 * b[off + 3]
}

/// ASCII upper-case letters fold to lower case; every other byte is kept.
pub open spec fn spec_lower_byte(c: u8) -> u8 {
    if 65 <= c && c <= 90 {
        (c + 32) as u8
    } else {
        c
    }
}

/// Byte-wise ASCII lower-casing of a whole sequence.
pub open spec fn spec_lower(s: Seq<u8>) -> Seq<u8> {
    s.map_values(|c: u8| spec_lower_byte(c))
}

/// Decodes a 16-bit little-endian field from the first two bytes.
pub fn u8_le_to_u16(bytes: &[u8]) -> (r: u16)
    requires
        bytes@.len() >= 2,
    ensures
        r == spec_le16(bytes@, 0),
{
    bytes[0] as u16 + bytes[1] as u16 * 256
}

/// Decodes a 32-bit little-endian field from the first four bytes.
pub fn u8_le_to_u32(bytes: &[u8]) -> (r: u32)
    requires
        bytes@.len() >= 4,
    ensures
        r == spec_le32(bytes@, 0),
{
    bytes[0] as u32 + bytes[1] as u32 * 256 + bytes[2] as u32 * 65536
        + bytes[3] as u32 * 16777216
}

/// Decodes a 32-bit little-endian field from the first four bytes.
pub fn u8_to_u32_le(bytes: &[u8]) -> (r: u32)
    requires
        bytes@.len() >= 4,
    ensures
        r == spec_le32(bytes@, 0),
{
    bytes[0] as u32 + bytes[1] as u32 * 256 + bytes[2] as u32 * 65536
        + bytes[3] as u32 * 16777216
}

/// Replaces `dst` with the ASCII lower-casing of `src` and returns its
/// length.
pub fn to_lowercase_ascii(src: &[u8], dst: &mut Vec<u8>) -> (r: usize)
    ensures
        final(dst)@ == spec_lower(src@),
        r == src@.len(),
{
    dst.clear();
    let mut i: usize = 0;
    while i < src.len()
        invariant
            i <= src@.len(),
            dst@ == spec_lower(src@.take(i as int)),
        decreases src@.len() - i,
    {
        let c = src[i];
        let l = if c >= 65 && c <= 90 {
            c + 32
        } else {
            c
        };
        proof {
            assert(spec_lower(src@.take(i + 1)) =~= spec_lower(src@.take(i as int)).push(
                spec_lower_byte(src@[i as int]),
            ));
        }
        dst.push(l);
        i = i + 1;
    }
    proof {
        assert(src@.take(src@.len() as int) =~= src@);
    }
    i
}

} // verus!
