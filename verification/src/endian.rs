//! Byte-order primitives: mathematical readings of little- and big-endian
//! integers out of a byte sequence, their executable counterparts, and the
//! 64-bit reconstruction from split 32-bit halves.

use vstd::prelude::*;

verus! {

/// The little-endian 16-bit integer starting at `i`.
pub open spec fn le16_at(s: Seq<u8>, i: int) -> int {
    s[i] + 0x100 * s[i + 1]
}

/// The little-endian 32-bit integer starting at `i`.
pub open spec fn le32_at(s: Seq<u8>, i: int) -> int {
    s[i] + 0x100 * s[i + 1] + 0x1_0000 * s[i + 2] + 0x100_0000 * s[i + 3]
}

/// The big-endian 16-bit integer starting at `i`.
pub open spec fn be16_at(s: Seq<u8>, i: int) -> int {
    0x100 * s[i] + s[i + 1]
}

/// The big-endian 32-bit integer starting at `i`.
pub open spec fn be32_at(s: Seq<u8>, i: int) -> int {
    0x100_0000 * s[i] + 0x1_0000 * s[i + 1] + 0x100 * s[i + 2] + s[i + 3]
}

/// The big-endian 64-bit integer starting at `i`.
pub open spec fn be64_at(s: Seq<u8>, i: int) -> int {
    0x100_0000_0000_0000 * s[i] + 0x1_0000_0000_0000 * s[i + 1]
        + 0x100_0000_0000 * s[i + 2] + 0x1_0000_0000 * s[i + 3]
        + 0x100_0000 * s[i + 4] + 0x1_0000 * s[i + 5] + 0x100 * s[i + 6] + s[i + 7]
}

pub fn read_le_u16(buf: &[u8], pos: usize) -> (r: u16)
    requires
        pos + 2 <= buf@.len(),
    ensures
        r == le16_at(buf@, pos as int),
{
    buf[pos] as u16 + 0x100 * buf[pos + 1] as u16
}

pub fn read_le_u32(buf: &[u8], pos: usize) -> (r: u32)
    requires
        pos + 4 <= buf@.len(),
    ensures
        r == le32_at(buf@, pos as int),
{
    buf[pos] as u32 + 0x100 * buf[pos + 1] as u32 + 0x1_0000 * buf[pos + 2] as u32
        + 0x100_0000 * buf[pos + 3] as u32
}

pub fn read_be_u16(buf: &[u8], pos: usize) -> (r: u16)
    requires
        pos + 2 <= buf@.len(),
    ensures
        r == be16_at(buf@, pos as int),
{
    0x100 * buf[pos] as u16 + buf[pos + 1] as u16
}

pub fn read_be_u32(buf: &[u8], pos: usize) -> (r: u32)
    requires
        pos + 4 <= buf@.len(),
    ensures
        r == be32_at(buf@, pos as int),
{
    0x100_0000 * buf[pos] as u32 + 0x1_0000 * buf[pos + 1] as u32
        + 0x100 * buf[pos + 2] as u32 + buf[pos + 3] as u32
}

pub fn read_be_u64(buf: &[u8], pos: usize) -> (r: u64)
    requires
        pos + 8 <= buf@.len(),
    ensures
        r == be64_at(buf@, pos as int),
{
    0x100_0000_0000_0000 * buf[pos] as u64 + 0x1_0000_0000_0000 * buf[pos + 1] as u64
        + 0x100_0000_0000 * buf[pos + 2] as u64 + 0x1_0000_0000 * buf[pos + 3] as u64
        + 0x100_0000 * buf[pos + 4] as u64 + 0x1_0000 * buf[pos + 5] as u64
        + 0x100 * buf[pos + 6] as u64 + buf[pos + 7] as u64
}

/// Reassembles a 64-bit value from its 32-bit halves: the high half occupies
/// the upper 32 bits, the low half the lower 32 bits.
pub fn u32_hi_lo_to_u64(hi: u32, lo: u32) -> (r: u64)
    ensures
        r == hi * 0x1_0000_0000 + lo,
{
    let r: u64 = ((hi as u64) << 32u64) | (lo as u64);
    proof {
        assert(((hi as u64) << 32u64) | (lo as u64) == (hi as u64) * 0x1_0000_0000
            + (lo as u64)) by (bit_vector);
    }
    r
}

} // verus!
