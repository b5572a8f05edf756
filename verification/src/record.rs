//! The fixed-size record decoder: one 40-byte little-endian block per
//! captured event, with 64-bit fields reconstructed from split 32-bit halves
//! and a 16-bit field bit-split into a flag and a 15-bit offset.

use vstd::prelude::*;

use crate::endian::{le16_at, le32_at, read_le_u16, read_le_u32, u32_hi_lo_to_u64};

verus! {

/// The number of bytes a record occupies in the file.
pub const RECORD_LEN: usize = 40;

/// One decoded capture record.
#[derive(Debug, Clone, Copy, PartialEq, Eq, Structural)]
pub struct Record {
    /// Sequence number; expected to equal the record's position in the
    /// stream.
    pub number: u32,
    /// Full length in bytes of this record's payload.
    pub data_len: u32,
    /// 64-bit counter, stored as two little-endian 32-bit halves.
    pub count: u64,
    /// Capture timestamp in nanoseconds, stored as two halves.
    pub timestamp_ns: u64,
    /// 16-bit LFSR field.
    pub lfsr: u16,
    /// Top bit of the metadata word: whether trailing metadata is present.
    pub extra_metadata_present: bool,
    /// Low 15 bits of the metadata word: offset of the trailing metadata
    /// within the payload.
    pub metadata_offset: u16,
    /// 32-bit bitmask; individual bits carry independent meaning.
    pub flags: u32,
    /// Absolute byte offset of this record's payload in the payload region,
    /// stored as two halves.
    pub data_offset: u64,
}

/// The record encoded in the first 40 bytes of `s`. All fields are
/// little-endian, in declared order: number, data_len, count hi/lo,
/// timestamp hi/lo, lfsr, metadata word, flags, data_offset hi/lo.
pub open spec fn record_of(s: Seq<u8>) -> Record {
    Record {
        number: le32_at(s, 0) as u32,
        data_len: le32_at(s, 4) as u32,
        count: (0x1_0000_0000 * le32_at(s, 8) + le32_at(s, 12)) as u64,
        timestamp_ns: (0x1_0000_0000 * le32_at(s, 16) + le32_at(s, 20)) as u64,
        lfsr: le16_at(s, 24) as u16,
        extra_metadata_present: le16_at(s, 26) >= 0x8000,
        metadata_offset: (le16_at(s, 26) % 0x8000) as u16,
        flags: le32_at(s, 28) as u32,
        data_offset: (0x1_0000_0000 * le32_at(s, 32) + le32_at(s, 36)) as u64,
    }
}

/// A record that some 40-byte block can encode: the metadata offset fits in
/// its 15 bits. Every other field is exactly as wide as its encoding.
pub open spec fn wf_record(r: Record) -> bool {
    r.metadata_offset < 0x8000
}

/// The little-endian bytes of a 16-bit value.
pub open spec fn le16_bytes(v: int) -> Seq<u8> {
    seq![(v % 0x100) as u8, ((v / 0x100) % 0x100) as u8]
}

/// The little-endian bytes of a 32-bit value.
pub open spec fn le32_bytes(v: int) -> Seq<u8> {
    seq![
        (v % 0x100) as u8,
        ((v / 0x100) % 0x100) as u8,
        ((v / 0x1_0000) % 0x100) as u8,
        ((v / 0x100_0000) % 0x100) as u8,
    ]
}

/// The metadata word a record's flag and offset assemble back into.
pub open spec fn metadata_word(r: Record) -> int {
    (if r.extra_metadata_present {
        0x8000int
    } else {
        0int
    }) + r.metadata_offset
}

/// The 40-byte block that encodes a record.
pub open spec fn encode_record(r: Record) -> Seq<u8> {
    le32_bytes(r.number as int) + le32_bytes(r.data_len as int) + le32_bytes(
        r.count as int / 0x1_0000_0000,
    ) + le32_bytes(r.count as int % 0x1_0000_0000) + le32_bytes(
        r.timestamp_ns as int / 0x1_0000_0000,
    ) + le32_bytes(r.timestamp_ns as int % 0x1_0000_0000) + le16_bytes(r.lfsr as int)
        + le16_bytes(metadata_word(r)) + le32_bytes(r.flags as int) + le32_bytes(
        r.data_offset as int / 0x1_0000_0000,
    ) + le32_bytes(r.data_offset as int % 0x1_0000_0000)
}

proof fn lemma_le16_decompose(a: u8, b: u8)
    ensures
        (a + 0x100 * b) % 0x100 == a,
        ((a + 0x100 * b) / 0x100) % 0x100 == b,
{
    assert((a + 0x100 * b) % 0x100 == a && ((a + 0x100 * b) / 0x100) % 0x100 == b)
        by (bit_vector);
}

proof fn lemma_le32_decompose(a: u8, b: u8, c: u8, d: u8)
    ensures
        (a + 0x100 * b + 0x1_0000 * c + 0x100_0000 * d) % 0x100 == a,
        ((a + 0x100 * b + 0x1_0000 * c + 0x100_0000 * d) / 0x100) % 0x100 == b,
        ((a + 0x100 * b + 0x1_0000 * c + 0x100_0000 * d) / 0x1_0000) % 0x100 == c,
        ((a + 0x100 * b + 0x1_0000 * c + 0x100_0000 * d) / 0x100_0000) % 0x100 == d,
{
    assert((a + 0x100 * b + 0x1_0000 * c + 0x100_0000 * d) % 0x100 == a && ((a + 0x100 * b
        + 0x1_0000 * c + 0x100_0000 * d) / 0x100) % 0x100 == b && ((a + 0x100 * b + 0x1_0000
        * c + 0x100_0000 * d) / 0x1_0000) % 0x100 == c && ((a + 0x100 * b + 0x1_0000 * c
        + 0x100_0000 * d) / 0x100_0000) % 0x100 == d) by (bit_vector);
}

proof fn lemma_hi_lo_split(hi: u32, lo: u32)
    ensures
        (0x1_0000_0000 * hi + lo) / 0x1_0000_0000 == hi,
        (0x1_0000_0000 * hi + lo) % 0x1_0000_0000 == lo,
{
    assert((0x1_0000_0000 * hi + lo) / 0x1_0000_0000 == hi && (0x1_0000_0000 * hi + lo)
        % 0x1_0000_0000 == lo) by (bit_vector);
}

proof fn lemma_meta_split(m: int)
    requires
        0 <= m < 0x1_0000,
    ensures
        m >= 0x8000 ==> 0x8000 + (m % 0x8000) == m,
        m < 0x8000 ==> m % 0x8000 == m,
{
    let mb = m as u16;
    assert((mb >= 0x8000 ==> 0x8000 + (mb % 0x8000) == mb) && (mb < 0x8000 ==> mb % 0x8000
        == mb)) by (bit_vector);
}

/// Decoding a 40-byte block loses nothing: re-encoding the decoded record
/// reproduces the block byte for byte, including the bit-split metadata word
/// and the 64-bit reconstructions.
pub proof fn lemma_record_round_trip(s: Seq<u8>)
    requires
        s.len() == 40,
    ensures
        encode_record(record_of(s)) == s,
{
    let r = record_of(s);
    lemma_le32_decompose(s[0], s[1], s[2], s[3]);
    lemma_le32_decompose(s[4], s[5], s[6], s[7]);
    lemma_le32_decompose(s[8], s[9], s[10], s[11]);
    lemma_le32_decompose(s[12], s[13], s[14], s[15]);
    lemma_le32_decompose(s[16], s[17], s[18], s[19]);
    lemma_le32_decompose(s[20], s[21], s[22], s[23]);
    lemma_le16_decompose(s[24], s[25]);
    lemma_le16_decompose(s[26], s[27]);
    lemma_le32_decompose(s[28], s[29], s[30], s[31]);
    lemma_le32_decompose(s[32], s[33], s[34], s[35]);
    lemma_le32_decompose(s[36], s[37], s[38], s[39]);
    lemma_hi_lo_split(le32_at(s, 8) as u32, le32_at(s, 12) as u32);
    lemma_hi_lo_split(le32_at(s, 16) as u32, le32_at(s, 20) as u32);
    lemma_hi_lo_split(le32_at(s, 32) as u32, le32_at(s, 36) as u32);
    lemma_meta_split(le16_at(s, 26));
    assert(encode_record(r) =~= s);
}

/// Encoding a well-formed record and decoding the block gives the record
/// back: every field survives exactly.
pub proof fn lemma_record_rebuild(r: Record)
    requires
        wf_record(r),
    ensures
        record_of(encode_record(r)) == r,
{
    let s = encode_record(r);
    assert(s.len() == 40);
    lemma_le32_rebuild(r.number as int, s, 0);
    lemma_le32_rebuild(r.data_len as int, s, 4);
    lemma_le32_rebuild(r.count as int / 0x1_0000_0000, s, 8);
    lemma_le32_rebuild(r.count as int % 0x1_0000_0000, s, 12);
    lemma_le32_rebuild(r.timestamp_ns as int / 0x1_0000_0000, s, 16);
    lemma_le32_rebuild(r.timestamp_ns as int % 0x1_0000_0000, s, 20);
    lemma_le16_rebuild(r.lfsr as int, s, 24);
    lemma_le16_rebuild(metadata_word(r), s, 26);
    lemma_le32_rebuild(r.flags as int, s, 28);
    lemma_le32_rebuild(r.data_offset as int / 0x1_0000_0000, s, 32);
    lemma_le32_rebuild(r.data_offset as int % 0x1_0000_0000, s, 36);
    lemma_hi_lo_recombine(r.count);
    lemma_hi_lo_recombine(r.timestamp_ns);
    lemma_hi_lo_recombine(r.data_offset);
    lemma_meta_rebuild(r);
    assert(record_of(s) == r);
}

proof fn lemma_le16_rebuild(v: int, s: Seq<u8>, i: int)
    requires
        0 <= v < 0x1_0000,
        0 <= i,
        i + 2 <= s.len(),
        s[i] == (v % 0x100) as u8,
        s[i + 1] == ((v / 0x100) % 0x100) as u8,
    ensures
        le16_at(s, i) == v,
{
    let vb = v as u16;
    assert(vb % 0x100 + 0x100 * ((vb / 0x100) % 0x100) == vb) by (bit_vector);
}

proof fn lemma_le32_rebuild(v: int, s: Seq<u8>, i: int)
    requires
        0 <= v < 0x1_0000_0000,
        0 <= i,
        i + 4 <= s.len(),
        s[i] == (v % 0x100) as u8,
        s[i + 1] == ((v / 0x100) % 0x100) as u8,
        s[i + 2] == ((v / 0x1_0000) % 0x100) as u8,
        s[i + 3] == ((v / 0x100_0000) % 0x100) as u8,
    ensures
        le32_at(s, i) == v,
{
    let vb = v as u32;
    assert(vb % 0x100 + 0x100 * ((vb / 0x100) % 0x100) + 0x1_0000 * ((vb / 0x1_0000) % 0x100)
        + 0x100_0000 * ((vb / 0x100_0000) % 0x100) == vb) by (bit_vector);
}

proof fn lemma_hi_lo_recombine(v: u64)
    ensures
        0x1_0000_0000 * (v as int / 0x1_0000_0000) + v as int % 0x1_0000_0000 == v,
{
    assert(0x1_0000_0000 * (v / 0x1_0000_0000) + v % 0x1_0000_0000 == v) by (bit_vector);
}

proof fn lemma_meta_rebuild(r: Record)
    requires
        wf_record(r),
    ensures
        metadata_word(r) >= 0x8000 <==> r.extra_metadata_present,
        metadata_word(r) % 0x8000 == r.metadata_offset,
        0 <= metadata_word(r) < 0x1_0000,
{
    let mo = r.metadata_offset;
    assert(mo < 0x8000 ==> ((0x8000 + mo) % 0x8000 == mo && mo % 0x8000 == mo))
        by (bit_vector);
}

impl Record {
    /// Decodes one record from the first 40 bytes of `input`. The block is
    /// fixed-width and fixed-shape, so decoding is total: any 40 bytes
    /// decode to exactly the record the model describes.
    pub fn from_slice(input: &[u8]) -> (r: Option<Record>)
        requires
            input@.len() >= 40,
        ensures
            r == Some(record_of(input@)),
    {
        let number = read_le_u32(input, 0);
        let data_len = read_le_u32(input, 4);
        let count_hi = read_le_u32(input, 8);
        let count_lo = read_le_u32(input, 12);
        let timestamp_ns_hi = read_le_u32(input, 16);
        let timestamp_ns_lo = read_le_u32(input, 20);
        let lfsr = read_le_u16(input, 24);
        let metadata_info = read_le_u16(input, 26);
        let flags = read_le_u32(input, 28);
        let data_offset_hi = read_le_u32(input, 32);
        let data_offset_lo = read_le_u32(input, 36);
        proof {
            assert((metadata_info & 0x8000 != 0) == (metadata_info >= 0x8000)) by (bit_vector);
            assert(metadata_info & 0x7FFF == metadata_info % 0x8000) by (bit_vector);
        }
        Some(
            Record {
                number,
                data_len,
                count: u32_hi_lo_to_u64(count_hi, count_lo),
                timestamp_ns: u32_hi_lo_to_u64(timestamp_ns_hi, timestamp_ns_lo),
                lfsr,
                extra_metadata_present: (metadata_info & 0x8000) != 0,
                metadata_offset: metadata_info & 0x7FFF,
                flags,
                data_offset: u32_hi_lo_to_u64(data_offset_hi, data_offset_lo),
            },
        )
    }
}

/// Whether every byte of `s` is zero: the shape of the sentinel block that
/// terminates the record stream.
pub open spec fn all_zero(s: Seq<u8>) -> bool {
    forall|i: int| 0 <= i < s.len() ==> s[i] == 0
}

/// Whether the given block is all zero bytes.
pub fn is_all_zero(buf: &[u8]) -> (r: bool)
    ensures
        r == all_zero(buf@),
{
    let mut i: usize = 0;
    while i < buf.len()
        invariant
            i <= buf@.len(),
            forall|j: int| 0 <= j < i ==> buf@[j] == 0,
        decreases buf@.len() - i,
    {
        if buf[i] != 0 {
            return false;
        }
        i = i + 1;
    }
    true
}

} // verus!
