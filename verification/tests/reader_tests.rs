use agilent_pad::{ByteCursor, PadError, Record, RecordReader};

fn data_region() -> Vec<u8> {
    let mut v: Vec<u8> = Vec::new();
    for i in 0..100u8 {
        v.push(i);
    }
    v
}

fn record_at(data_offset: u64, data_len: u32, metadata_offset: u16) -> Record {
    Record {
        number: 1,
        data_len,
        count: 0,
        timestamp_ns: 0,
        lfsr: 0,
        extra_metadata_present: metadata_offset > 0,
        metadata_offset,
        flags: 0,
        data_offset,
    }
}

#[test]
fn contiguous_ascending_offsets() {
    // Payloads that follow each other exactly: each fetch after the first
    // is the degenerate zero-length seek.
    let mut reader = RecordReader::new(ByteCursor::new(data_region()), 10);
    let a = reader.get_all_data_for_record(&record_at(10, 5, 0)).unwrap();
    assert_eq!(a, vec![10, 11, 12, 13, 14]);
    let b = reader.get_all_data_for_record(&record_at(15, 5, 0)).unwrap();
    assert_eq!(b, vec![15, 16, 17, 18, 19]);
    let c = reader.get_all_data_for_record(&record_at(20, 3, 0)).unwrap();
    assert_eq!(c, vec![20, 21, 22]);
}

#[test]
fn gap_between_offsets() {
    // A payload further ahead than the cursor: a forward relative seek
    // skips the gap exactly.
    let mut reader = RecordReader::new(ByteCursor::new(data_region()), 10);
    let a = reader.get_all_data_for_record(&record_at(10, 4, 0)).unwrap();
    assert_eq!(a, vec![10, 11, 12, 13]);
    let b = reader.get_all_data_for_record(&record_at(40, 4, 0)).unwrap();
    assert_eq!(b, vec![40, 41, 42, 43]);
}

#[test]
fn offset_equal_to_cursor_seeks_zero() {
    // The first record's payload sits exactly at the payload region start:
    // the very first fetch is already the zero-length seek.
    let mut reader = RecordReader::new(ByteCursor::new(data_region()), 30);
    let a = reader.get_all_data_for_record(&record_at(30, 6, 0)).unwrap();
    assert_eq!(a, vec![30, 31, 32, 33, 34, 35]);
}

#[test]
fn backward_offset_still_fetches_correctly() {
    // Out-of-order requests defeat the sequential-access assumption but
    // are still answered correctly by a negative relative seek.
    let mut reader = RecordReader::new(ByteCursor::new(data_region()), 10);
    let a = reader.get_all_data_for_record(&record_at(50, 4, 0)).unwrap();
    assert_eq!(a, vec![50, 51, 52, 53]);
    let b = reader.get_all_data_for_record(&record_at(20, 4, 0)).unwrap();
    assert_eq!(b, vec![20, 21, 22, 23]);
}

#[test]
fn metadata_excluded_when_located() {
    let mut reader = RecordReader::new(ByteCursor::new(data_region()), 0);
    let rec = record_at(10, 8, 5);
    let without = reader.get_data_for_record_without_metadata(&rec).unwrap();
    assert_eq!(without, vec![10, 11, 12, 13, 14]);
    let all = reader.get_all_data_for_record(&rec).unwrap();
    assert_eq!(all, vec![10, 11, 12, 13, 14, 15, 16, 17]);
}

#[test]
fn metadata_exclusion_falls_back_to_full_length() {
    // A zero metadata offset locates nothing: the fetch falls back to the
    // full payload length.
    let mut reader = RecordReader::new(ByteCursor::new(data_region()), 0);
    let rec = record_at(10, 8, 0);
    let without = reader.get_data_for_record_without_metadata(&rec).unwrap();
    assert_eq!(without, vec![10, 11, 12, 13, 14, 15, 16, 17]);
}

#[test]
fn zero_length_payload_reads_nothing() {
    let mut reader = RecordReader::new(ByteCursor::new(data_region()), 0);
    let a = reader.get_all_data_for_record(&record_at(60, 0, 0)).unwrap();
    assert_eq!(a, Vec::<u8>::new());
}

#[test]
fn payload_past_end_is_a_short_read() {
    let mut reader = RecordReader::new(ByteCursor::new(data_region()), 0);
    assert_eq!(
        reader.get_all_data_for_record(&record_at(98, 5, 0)),
        Err(PadError::ShortRead)
    );
}

#[test]
fn unrepresentable_seek_is_rejected() {
    let mut reader = RecordReader::new(ByteCursor::new(data_region()), 0);
    assert_eq!(
        reader.get_all_data_for_record(&record_at(u64::MAX, 1, 0)),
        Err(PadError::SeekOutOfRange)
    );
}
