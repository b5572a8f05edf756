use agilent_pad::endian::u32_hi_lo_to_u64;
use agilent_pad::Record;

fn record_block(
    number: u32,
    data_len: u32,
    count: u64,
    timestamp_ns: u64,
    lfsr: u16,
    metadata_info: u16,
    flags: u32,
    data_offset: u64,
) -> Vec<u8> {
    let mut v: Vec<u8> = Vec::new();
    v.extend_from_slice(&number.to_le_bytes());
    v.extend_from_slice(&data_len.to_le_bytes());
    v.extend_from_slice(&((count >> 32) as u32).to_le_bytes());
    v.extend_from_slice(&(count as u32).to_le_bytes());
    v.extend_from_slice(&((timestamp_ns >> 32) as u32).to_le_bytes());
    v.extend_from_slice(&(timestamp_ns as u32).to_le_bytes());
    v.extend_from_slice(&lfsr.to_le_bytes());
    v.extend_from_slice(&metadata_info.to_le_bytes());
    v.extend_from_slice(&flags.to_le_bytes());
    v.extend_from_slice(&((data_offset >> 32) as u32).to_le_bytes());
    v.extend_from_slice(&(data_offset as u32).to_le_bytes());
    v
}

#[test]
fn record_decodes_every_field() {
    let block = record_block(
        7,
        0x1234,
        0xFFFF_FFFF_0000_0001,
        0x0102_0304_0506_0708,
        0xBEEF,
        0x8000 | 0x1234,
        0xA5A5_A5A5,
        0x0000_0009_0000_0010,
    );
    assert_eq!(block.len(), 40);
    let r = Record::from_slice(block.as_slice()).unwrap();
    assert_eq!(r.number, 7);
    assert_eq!(r.data_len, 0x1234);
    assert_eq!(r.count, 0xFFFF_FFFF_0000_0001);
    assert_eq!(r.timestamp_ns, 0x0102_0304_0506_0708);
    assert_eq!(r.lfsr, 0xBEEF);
    assert!(r.extra_metadata_present);
    assert_eq!(r.metadata_offset, 0x1234);
    assert_eq!(r.flags, 0xA5A5_A5A5);
    assert_eq!(r.data_offset, 0x0000_0009_0000_0010);
}

#[test]
fn record_metadata_word_without_top_bit() {
    let block = record_block(0, 0, 0, 0, 0, 0x1234, 0, 0);
    let r = Record::from_slice(block.as_slice()).unwrap();
    assert!(!r.extra_metadata_present);
    assert_eq!(r.metadata_offset, 0x1234);
}

#[test]
fn record_metadata_word_top_bit_only() {
    let block = record_block(0, 0, 0, 0, 0, 0x8000, 0, 0);
    let r = Record::from_slice(block.as_slice()).unwrap();
    assert!(r.extra_metadata_present);
    assert_eq!(r.metadata_offset, 0);
}

#[test]
fn record_all_zero_block_decodes_to_zero_record() {
    let block = vec![0u8; 40];
    let r = Record::from_slice(block.as_slice()).unwrap();
    assert_eq!(r.number, 0);
    assert_eq!(r.data_len, 0);
    assert_eq!(r.count, 0);
    assert_eq!(r.timestamp_ns, 0);
    assert_eq!(r.lfsr, 0);
    assert!(!r.extra_metadata_present);
    assert_eq!(r.metadata_offset, 0);
    assert_eq!(r.flags, 0);
    assert_eq!(r.data_offset, 0);
}

#[test]
fn record_little_endian_byte_order() {
    let mut block = vec![0u8; 40];
    block[0] = 0x78;
    block[1] = 0x56;
    block[2] = 0x34;
    block[3] = 0x12;
    let r = Record::from_slice(block.as_slice()).unwrap();
    assert_eq!(r.number, 0x1234_5678);
}

#[test]
fn hi_lo_reconstruction_boundary_values() {
    assert_eq!(u32_hi_lo_to_u64(0xFFFF_FFFF, 0x0000_0001), 0xFFFF_FFFF_0000_0001);
    assert_eq!(u32_hi_lo_to_u64(0, 0), 0);
    assert_eq!(u32_hi_lo_to_u64(0, 0xFFFF_FFFF), 0xFFFF_FFFF);
    assert_eq!(u32_hi_lo_to_u64(1, 0), 0x1_0000_0000);
    assert_eq!(u32_hi_lo_to_u64(0xFFFF_FFFF, 0xFFFF_FFFF), u64::MAX);
}
