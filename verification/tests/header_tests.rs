use agilent_pad::header::HeaderAttempt;
use agilent_pad::{ByteCursor, CoarseTimestamp, PadHeader};

fn push_str(v: &mut Vec<u8>, s: &[u8]) {
    v.extend_from_slice(&(s.len() as u16).to_be_bytes());
    v.extend_from_slice(s);
}

fn push_u16(v: &mut Vec<u8>, x: u16) {
    v.extend_from_slice(&x.to_be_bytes());
}

fn push_u32(v: &mut Vec<u8>, x: u32) {
    v.extend_from_slice(&x.to_be_bytes());
}

fn push_u64(v: &mut Vec<u8>, x: u64) {
    v.extend_from_slice(&x.to_be_bytes());
}

fn header_bytes(records_offset: u64, record_data_offset: u64) -> Vec<u8> {
    let mut v: Vec<u8> = Vec::new();
    push_str(&mut v, b"ModuleX");
    push_str(&mut v, b"Port1");
    push_str(&mut v, b"RX");
    push_str(&mut v, b"a test capture");
    push_str(&mut v, b"FMT1");
    push_u32(&mut v, 0x1111_1111);
    push_u32(&mut v, 0x2222_2222);
    push_u32(&mut v, 2); // trigger_record_number
    push_u32(&mut v, 3); // the constant field
    push_u32(&mut v, 1); // first_record_number
    push_u32(&mut v, 3); // last_record_number
    push_u32(&mut v, 40); // record_len
    push_u32(&mut v, 8); // timestamp_array_size
    push_u64(&mut v, 111);
    push_u64(&mut v, 222);
    push_u64(&mut v, 333);
    push_u64(&mut v, 444);
    push_str(&mut v, b"GUID-0001");
    push_str(&mut v, b"chanA");
    push_str(&mut v, b"chanB");
    push_u16(&mut v, 1);
    push_u16(&mut v, 2);
    push_u16(&mut v, 3);
    push_u16(&mut v, 4);
    push_u16(&mut v, 5);
    push_u16(&mut v, 6);
    push_u64(&mut v, records_offset);
    push_u64(&mut v, record_data_offset);
    push_str(&mut v, b"START");
    v
}

fn check_header(h: &PadHeader) {
    assert_eq!(h.module_type, "ModuleX");
    assert_eq!(h.port_id, "Port1");
    assert_eq!(h.rx_or_tx, "RX");
    assert_eq!(h.description, "a test capture");
    assert_eq!(h.format_code, "FMT1");
    assert_eq!(h.numbers0, (0x1111_1111, 0x2222_2222));
    assert_eq!(h.trigger_record_number, 2);
    assert_eq!(h.three, 3);
    assert_eq!(h.first_record_number, 1);
    assert_eq!(h.last_record_number, 3);
    assert_eq!(h.record_len, 40);
    assert_eq!(h.timestamp_array_size, 8);
    assert_eq!(h.timestamps_ns.first, 111);
    assert_eq!(h.timestamps_ns.last, 222);
    assert_eq!(h.timestamps_ns.stop, 333);
    assert_eq!(h.timestamps_ns.trigger, 444);
    assert_eq!(h.guid, "GUID-0001");
    assert_eq!(h.channel_names.a, "chanA");
    assert_eq!(h.channel_names.b, "chanB");
    assert_eq!(h.start_time, CoarseTimestamp { hour: 1, minute: 2, millisec: 3 });
    assert_eq!(h.stop_time, CoarseTimestamp { hour: 4, minute: 5, millisec: 6 });
    assert_eq!(h.records_offset, 1000);
    assert_eq!(h.record_data_offset, 2000);
    assert_eq!(h.start, "START");
}

#[test]
fn header_decodes_from_exact_buffer() {
    let bytes = header_bytes(1000, 2000);
    match PadHeader::try_from_slice(bytes.as_slice()) {
        HeaderAttempt::Parsed(h) => check_header(&h),
        HeaderAttempt::Need(n) => panic!("unexpected deficit of {} bytes", n),
    }
}

#[test]
fn header_ignores_trailing_bytes() {
    let mut bytes = header_bytes(1000, 2000);
    bytes.extend_from_slice(&[0xAB; 137]);
    match PadHeader::try_from_slice(bytes.as_slice()) {
        HeaderAttempt::Parsed(h) => check_header(&h),
        HeaderAttempt::Need(n) => panic!("unexpected deficit of {} bytes", n),
    }
}

#[test]
fn header_from_cursor_converges() {
    let mut bytes = header_bytes(1000, 2000);
    bytes.extend_from_slice(&[0xCD; 64]);
    let mut cur = ByteCursor::new(bytes);
    let h = PadHeader::from_cursor(&mut cur).unwrap();
    check_header(&h);
}

#[test]
fn header_from_cursor_agrees_with_single_attempt() {
    // The probe-and-retry parse grows its buffer a different number of
    // times than a single whole-buffer attempt, yet both must decode the
    // identical header.
    let bytes = header_bytes(1000, 2000);
    let one_shot = match PadHeader::try_from_slice(bytes.as_slice()) {
        HeaderAttempt::Parsed(h) => h,
        HeaderAttempt::Need(n) => panic!("unexpected deficit of {} bytes", n),
    };
    let mut cur = ByteCursor::new(bytes);
    let grown = PadHeader::from_cursor(&mut cur).unwrap();
    assert_eq!(grown.module_type, one_shot.module_type);
    assert_eq!(grown.port_id, one_shot.port_id);
    assert_eq!(grown.rx_or_tx, one_shot.rx_or_tx);
    assert_eq!(grown.description, one_shot.description);
    assert_eq!(grown.format_code, one_shot.format_code);
    assert_eq!(grown.numbers0, one_shot.numbers0);
    assert_eq!(grown.trigger_record_number, one_shot.trigger_record_number);
    assert_eq!(grown.three, one_shot.three);
    assert_eq!(grown.first_record_number, one_shot.first_record_number);
    assert_eq!(grown.last_record_number, one_shot.last_record_number);
    assert_eq!(grown.record_len, one_shot.record_len);
    assert_eq!(grown.timestamp_array_size, one_shot.timestamp_array_size);
    assert_eq!(grown.timestamps_ns, one_shot.timestamps_ns);
    assert_eq!(grown.guid, one_shot.guid);
    assert_eq!(grown.channel_names.a, one_shot.channel_names.a);
    assert_eq!(grown.channel_names.b, one_shot.channel_names.b);
    assert_eq!(grown.start_time, one_shot.start_time);
    assert_eq!(grown.stop_time, one_shot.stop_time);
    assert_eq!(grown.records_offset, one_shot.records_offset);
    assert_eq!(grown.record_data_offset, one_shot.record_data_offset);
    assert_eq!(grown.start, one_shot.start);
}

#[test]
fn header_cursor_left_just_past_end() {
    // After the header parse the cursor must sit exactly at the header's
    // real end: the bytes that follow are read back verbatim.
    let mut bytes = header_bytes(1000, 2000);
    let tail: Vec<u8> = vec![9, 8, 7, 6];
    bytes.extend_from_slice(tail.as_slice());
    let mut cur = ByteCursor::new(bytes);
    PadHeader::from_cursor(&mut cur).unwrap();
    let read = cur.read_vec(4).unwrap();
    assert_eq!(read, tail);
}

#[test]
fn header_empty_buffer_needs_two_bytes() {
    let empty: Vec<u8> = Vec::new();
    match PadHeader::try_from_slice(empty.as_slice()) {
        HeaderAttempt::Need(n) => assert_eq!(n, 2),
        HeaderAttempt::Parsed(_) => panic!("empty buffer cannot decode"),
    }
}

#[test]
fn header_string_deficit_is_reported_exactly() {
    // A length prefix declaring five bytes with none present: five missing.
    let bytes: Vec<u8> = vec![0, 5];
    match PadHeader::try_from_slice(bytes.as_slice()) {
        HeaderAttempt::Need(n) => assert_eq!(n, 5),
        HeaderAttempt::Parsed(_) => panic!("truncated buffer cannot decode"),
    }
}

#[test]
fn header_truncated_source_fails() {
    let mut bytes = header_bytes(1000, 2000);
    bytes.truncate(bytes.len() - 3);
    let mut cur = ByteCursor::new(bytes);
    assert!(PadHeader::from_cursor(&mut cur).is_err());
}

#[test]
fn coarse_timestamp_from_slice() {
    let words: Vec<u16> = vec![10, 20, 30, 40];
    let t = CoarseTimestamp::from_slice(words.as_slice());
    assert_eq!(t.hour, 10);
    assert_eq!(t.minute, 20);
    assert_eq!(t.millisec, 30);
}

#[test]
fn coarse_timestamp_from_tuple() {
    let t = CoarseTimestamp::from_tuple((7, 8, 9));
    assert_eq!(t.hour, 7);
    assert_eq!(t.minute, 8);
    assert_eq!(t.millisec, 9);
}

#[test]
fn coarse_timestamp_is_null() {
    assert!(CoarseTimestamp::from_tuple((0, 0, 0)).is_null());
    assert!(!CoarseTimestamp::from_tuple((0, 0, 1)).is_null());
    assert!(!CoarseTimestamp::from_tuple((1, 0, 0)).is_null());
}
