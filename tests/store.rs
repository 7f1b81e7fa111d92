use avail_light_p2p::cells::{cells_from_records, Cell, Position};
use avail_light_p2p::records::{
    cells_put_batch, expiry, rows_put_batch, InsertError, Quorum,
};
use avail_light_p2p::store::{MemoryStore, Record, StoreError};

fn record(key: &[u8], value: &[u8], expires: Option<u64>) -> Record {
    Record { key: key.to_vec(), value: value.to_vec(), publisher: None, expires }
}

#[test]
fn expired_record_is_pruned_and_not_found() {
    let mut store = MemoryStore::new(10);
    let at = 1_000;
    let ttl = 5;
    store.put(record(b"a", b"x", expiry(at, ttl))).unwrap();
    store.put(record(b"b", b"y", None)).unwrap();
    store.put(record(b"c", b"z", Some(at + 60_000))).unwrap();
    assert_eq!(store.prune_expired(at + 4_999), 0);
    assert!(store.get(b"a").is_some());
    assert_eq!(store.prune_expired(at + 5_001), 1);
    assert!(store.get(b"a").is_none());
    assert_eq!(store.get(b"b").unwrap().value, b"y".to_vec());
    assert_eq!(store.len(), 2);
}

#[test]
fn prune_at_the_expiry_instant_removes() {
    let mut store = MemoryStore::new(2);
    store.put(record(b"k", b"v", Some(50))).unwrap();
    assert_eq!(store.prune_expired(50), 1);
    assert_eq!(store.len(), 0);
}

#[test]
fn put_overwrites_and_full_store_refuses_new_keys() {
    let mut store = MemoryStore::new(1);
    store.put(record(b"k", b"v1", None)).unwrap();
    store.put(record(b"k", b"v2", None)).unwrap();
    assert_eq!(store.get(b"k").unwrap().value, b"v2".to_vec());
    assert_eq!(store.put(record(b"j", b"w", None)), Err(StoreError::MaxRecords));
    assert!(store.get(b"j").is_none());
    assert_eq!(store.len(), 1);
}

#[test]
fn remove_and_shrink() {
    let mut store = MemoryStore::new(4);
    store.put(record(b"a", b"1", None)).unwrap();
    store.put(record(b"b", b"2", None)).unwrap();
    let removed = store.remove(b"a").unwrap();
    assert_eq!(removed.value, b"1".to_vec());
    assert!(store.remove(b"a").is_none());
    store.shrink();
    assert_eq!(store.len(), 1);
    assert!(store.get(b"b").is_some());
}

#[test]
fn expiry_is_ttl_seconds_after_now() {
    assert_eq!(expiry(2_000, 3), Some(5_000));
    assert_eq!(expiry(u64::MAX - 10, 1), None);
    assert_eq!(expiry(0, u64::MAX), None);
}

#[test]
fn inserted_cell_is_fetched_back() {
    let cell = Cell { position: Position { row: 4, col: 9 }, content: [0xab; 80] };
    let key = b"42:4:9".to_vec();
    let batch = cells_put_batch(42, &vec![key.clone()], &vec![cell], 1_000, 60).unwrap();
    assert_eq!(batch.block, 42);
    assert_eq!(batch.quorum, Quorum::One);
    assert_eq!(batch.records.len(), 1);
    assert_eq!(batch.records[0].expires, Some(61_000));
    let mut store = MemoryStore::new(8);
    for r in batch.records {
        store.put(r).unwrap();
    }
    store.prune_expired(30_000);
    let value = store.get(&key).unwrap().value.clone();
    let (fetched, unfetched) = cells_from_records(&vec![cell.position], &vec![Some(value)]);
    assert_eq!(fetched, vec![cell]);
    assert!(unfetched.is_empty());
}

#[test]
fn inserting_no_cells_is_refused() {
    assert_eq!(cells_put_batch(1, &vec![], &vec![], 0, 10).err(), Some(InsertError::EmptyRecordList));
    assert_eq!(rows_put_batch(1, &vec![], &vec![], 0, 10).err(), Some(InsertError::EmptyRecordList));
}

#[test]
fn rows_batch_holds_row_bytes() {
    let batch = rows_put_batch(3, &vec![b"3:0".to_vec(), b"3:1".to_vec()], &vec![vec![1, 2], vec![]], 10, 1)
        .unwrap();
    assert_eq!(batch.records.len(), 2);
    assert_eq!(batch.records[0].key, b"3:0".to_vec());
    assert_eq!(batch.records[0].value, vec![1, 2]);
    assert_eq!(batch.records[1].value, Vec::<u8>::new());
    assert_eq!(batch.records[1].expires, Some(1_010));
    assert!(batch.records[1].publisher.is_none());
}
