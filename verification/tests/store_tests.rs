use kvstore::entry::Entry;
use kvstore::result::KVError;
use kvstore::store::KVStore;
use kvstore::stream::{BufferRWS, MemoryNoOpRWS};

#[test]
fn test_kvstore_set_and_get() {
    let memory_stream = MemoryNoOpRWS::new();
    let mut kv_store = KVStore::new(memory_stream).unwrap();

    let key = "test_key";
    let value = Entry {
        value: b"test_value".to_vec(),
        mime: "text/plain".to_string(),
    };

    kv_store.set(key, value.clone()).unwrap();
    let retrieved_value = kv_store.get(key).unwrap();

    assert_eq!(retrieved_value.value, value.value);
    assert_eq!(retrieved_value.mime, value.mime);
}

#[test]
fn absent_key_on_fresh_store_is_none() {
    let store = KVStore::new(BufferRWS::new(Vec::new())).unwrap();
    assert!(store.get("missing").is_none());
}

#[test]
fn threshold_boundary_picks_encoding() {
    let mut store = KVStore::new(BufferRWS::new(Vec::new())).unwrap();

    store
        .set("small", Entry::new(vec![7u8; 1024], "application/octet-stream".to_string()))
        .unwrap();
    let first_flags = store.backing().data()[0];
    assert_eq!(first_flags, 0x00);

    let offset = store.backing().data().len();
    store
        .set("large", Entry::new(vec![7u8; 1025], "application/octet-stream".to_string()))
        .unwrap();
    let second_flags = store.backing().data()[offset];
    assert_eq!(second_flags, 0x80);
}

#[test]
fn replay_rebuilds_last_write_per_key() {
    let mut store = KVStore::new(BufferRWS::new(Vec::new())).unwrap();
    store.set("k1", Entry::new(b"one".to_vec(), "text/plain".to_string())).unwrap();
    store.set("k2", Entry::new(b"two".to_vec(), "text/plain".to_string())).unwrap();
    store.set("k1", Entry::new(b"three".to_vec(), "text/html".to_string())).unwrap();

    let bytes = store.backing().data().clone();
    let reopened = KVStore::new(BufferRWS::new(bytes)).unwrap();

    let k1 = reopened.get("k1").unwrap();
    assert_eq!(k1.value, b"three".to_vec());
    assert_eq!(k1.mime, "text/html");
    let k2 = reopened.get("k2").unwrap();
    assert_eq!(k2.value, b"two".to_vec());
    assert_eq!(k2.mime, "text/plain");
    assert!(reopened.get("k3").is_none());
}

#[test]
fn last_write_wins_in_memory_and_after_reopen() {
    let mut store = KVStore::new(BufferRWS::new(Vec::new())).unwrap();
    store.set("k", Entry::new(b"A".to_vec(), "text/plain".to_string())).unwrap();
    store.set("k", Entry::new(b"B".to_vec(), "text/plain".to_string())).unwrap();
    assert_eq!(store.get("k").unwrap().value, b"B".to_vec());

    let bytes = store.backing().data().clone();
    let reopened = KVStore::new(BufferRWS::new(bytes)).unwrap();
    assert_eq!(reopened.get("k").unwrap().value, b"B".to_vec());
}

#[test]
fn compressed_value_survives_reopen() {
    let mut bytes: Vec<u8> = Vec::new();
    let mut x: u32 = 0x0badcafe;
    for _ in 0..4096 {
        x = x.wrapping_mul(1664525).wrapping_add(1013904223);
        bytes.push((x >> 16) as u8);
    }
    let mut store = KVStore::new(BufferRWS::new(Vec::new())).unwrap();
    store.set("big", Entry::new(bytes.clone(), "application/octet-stream".to_string())).unwrap();

    let log = store.backing().data().clone();
    assert_eq!(log[0], 0x80);
    let reopened = KVStore::new(BufferRWS::new(log)).unwrap();
    assert_eq!(reopened.get("big").unwrap().value, bytes);
}

#[test]
fn truncated_final_record_fails_open() {
    let mut store = KVStore::new(BufferRWS::new(Vec::new())).unwrap();
    store.set("k", Entry::new(b"whole".to_vec(), "text/plain".to_string())).unwrap();

    // cut the log inside a trailing record: a flags byte and half a key_len
    let mut bytes = store.backing().data().clone();
    bytes.push(0x00);
    bytes.push(0x05);
    let err = KVStore::new(BufferRWS::new(bytes)).unwrap_err();
    assert_eq!(err, KVError::Truncated);
}

#[test]
fn corrupt_record_fails_open() {
    // a single record whose frame is not decodable
    let bytes: Vec<u8> = vec![0x80, 0x04, 0x00, 0x00, 0x00, 9, 9, 9, 9];
    let err = KVStore::new(BufferRWS::new(bytes)).unwrap_err();
    assert_eq!(err, KVError::InvalidData);
}

#[test]
fn oversize_key_is_rejected_and_store_unchanged() {
    let mut store = KVStore::new(BufferRWS::new(Vec::new())).unwrap();
    let err = store
        .set(&"a".repeat(70_000), Entry::new(b"v".to_vec(), "text/plain".to_string()))
        .unwrap_err();
    assert_eq!(err, KVError::InvalidData);
    assert_eq!(store.backing().data().len(), 0);
    assert!(store.get(&"a".repeat(70_000)).is_none());
}
