use kvstore::entry::{Entry, KVEntry};
use kvstore::result::KVError;

#[test]
fn test_write_and_read_entry() {
    let entry = KVEntry::new(
        "test_key".to_string(),
        b"test_value".to_vec(),
        "text/plain".to_string(),
    );

    let buffer = entry.encode_raw().unwrap();

    let (read_entry, used) = KVEntry::decode(&buffer, 0).unwrap();

    assert_eq!(entry.key, read_entry.key);
    assert_eq!(entry.value, read_entry.value);
    assert_eq!(entry.mime, read_entry.mime);
    assert_eq!(used, buffer.len());
}

#[test]
fn test_write_and_read_compressed_entry() {
    // enough bytes to cause the compression to kick in
    let mut bytes: Vec<u8> = Vec::new();
    let mut x: u32 = 0x12345678;
    for _ in 0..4096 {
        x = x.wrapping_mul(1664525).wrapping_add(1013904223);
        bytes.push((x >> 24) as u8);
    }

    let entry = KVEntry::new("test_key".to_string(), bytes, "text/plain".to_string());

    let buffer = entry.encode_compressed().unwrap();
    assert_eq!(buffer[0], 0x80);

    let (read_entry, used) = KVEntry::decode(&buffer, 0).unwrap();

    assert_eq!(entry.key, read_entry.key);
    assert_eq!(entry.value, read_entry.value);
    assert_eq!(entry.mime, read_entry.mime);
    assert_eq!(used, buffer.len());
}

#[test]
fn decode_empty_log_is_truncated() {
    let log: Vec<u8> = Vec::new();
    assert_eq!(KVEntry::decode(&log, 0).unwrap_err(), KVError::Truncated);
}

#[test]
fn decode_flags_only_is_truncated() {
    let log: Vec<u8> = vec![0x00];
    assert_eq!(KVEntry::decode(&log, 0).unwrap_err(), KVError::Truncated);
}

#[test]
fn decode_cut_inside_field_is_truncated() {
    // flags, key_len = 5, then only two of the five key bytes
    let log: Vec<u8> = vec![0x00, 0x05, 0x00, b'a', b'b'];
    assert_eq!(KVEntry::decode(&log, 0).unwrap_err(), KVError::Truncated);
}

#[test]
fn decode_bad_key_utf8_is_invalid() {
    // flags, key_len = 1, key = 0xff, value_len = 0, mime_len = 0
    let log: Vec<u8> = vec![0x00, 0x01, 0x00, 0xff, 0, 0, 0, 0, 0, 0];
    assert_eq!(KVEntry::decode(&log, 0).unwrap_err(), KVError::InvalidData);
}

#[test]
fn decode_bad_frame_is_invalid() {
    // flags with the compression bit, frame_len = 4, four bytes of junk
    let log: Vec<u8> = vec![0x80, 0x04, 0x00, 0x00, 0x00, 1, 2, 3, 4];
    assert_eq!(KVEntry::decode(&log, 0).unwrap_err(), KVError::InvalidData);
}

#[test]
fn encode_oversize_key_is_invalid() {
    let entry = KVEntry::new("a".repeat(70_000), b"v".to_vec(), "text/plain".to_string());
    assert_eq!(entry.encode_raw().unwrap_err(), KVError::InvalidData);
    assert_eq!(entry.encode_compressed().unwrap_err(), KVError::InvalidData);
}

#[test]
fn encode_oversize_mime_is_invalid() {
    let entry = KVEntry::new("k".to_string(), b"v".to_vec(), "m".repeat(70_000));
    assert_eq!(entry.encode_raw().unwrap_err(), KVError::InvalidData);
}

#[test]
fn raw_record_layout_is_exact() {
    let entry = KVEntry::new("ab".to_string(), vec![9, 8, 7], "t/p".to_string());
    let buffer = entry.encode_raw().unwrap();
    let expected: Vec<u8> = vec![
        0x00, // flags: raw
        0x02, 0x00, b'a', b'b', // key
        0x03, 0x00, 0x00, 0x00, 9, 8, 7, // value
        0x03, 0x00, b't', b'/', b'p', // mime
    ];
    assert_eq!(buffer, expected);
}

#[test]
fn entry_from_record_keeps_value_and_mime() {
    let record = KVEntry::new("k".to_string(), b"v".to_vec(), "text/plain".to_string());
    let entry = Entry::from(record);
    assert_eq!(entry.value, b"v".to_vec());
    assert_eq!(entry.mime, "text/plain");
}
