use sensor_log::meta::StorageState;
use sensor_log::record::{encode_record, StoredRecord};
use sensor_log::slot::InfoSlot;
use sensor_log::storage::{InfoStorage, InfoStorageError, RecoverableStorage};

fn fresh() -> InfoStorage {
    InfoStorage::new(Vec::new(), Vec::new()).unwrap()
}

fn slot(ts: u32) -> InfoSlot {
    InfoSlot::new(ts, 21, 55)
}

fn timestamps(v: &[InfoSlot]) -> Vec<u32> {
    v.iter().map(|s| s.get_unix_time()).collect()
}

fn store_of(ts: &[u32]) -> InfoStorage {
    let mut s = fresh();
    for &t in ts {
        s.enqueue(&slot(t)).unwrap();
    }
    s
}

#[test]
fn fresh_store_is_empty_and_sized() {
    let mut s = fresh();
    assert_eq!(s.capacity(), 300);
    assert_eq!(s.len(), 0);
    assert_eq!(s.data_region().len(), 4800);
    assert_eq!(s.meta_region().len(), 48);
    assert_eq!(s.load_all().unwrap(), Vec::<InfoSlot>::new());
}

#[test]
fn fifo_with_eviction() {
    let mut s = fresh();
    for t in 1..=301u32 {
        s.enqueue(&slot(t)).unwrap();
    }
    assert_eq!(s.len(), 300);
    let all = s.load_all().unwrap();
    assert_eq!(timestamps(&all), (2..=301).collect::<Vec<u32>>());
    assert_eq!(s.dequeue().unwrap().get_unix_time(), 2);
    assert_eq!(s.len(), 299);
}

#[test]
fn empty_store_contract() {
    let mut s = store_of(&[5, 6, 7]);
    s.clear_storage().unwrap();
    assert_eq!(s.dequeue(), Err(InfoStorageError::ReadError));
    assert_eq!(s.load_all().unwrap(), Vec::<InfoSlot>::new());
    assert_eq!(s.len(), 0);
    assert!(s.data_region().iter().all(|&b| b == 0));
}

#[test]
fn range_query() {
    let mut s = store_of(&[10, 20, 30, 40]);
    let found = s.find_range(15, 35).unwrap();
    assert_eq!(timestamps(&found), vec![20, 30]);
    assert_eq!(timestamps(&s.find_range(10, 40).unwrap()), vec![10, 20, 30, 40]);
    assert_eq!(s.find_range(41, 50).unwrap(), Vec::<InfoSlot>::new());
}

#[test]
fn targeted_deletion() {
    let mut s = store_of(&[10, 20, 30, 40]);
    let generation = s.generation();
    s.erase_info(20).unwrap();
    assert_eq!(s.len(), 3);
    assert_eq!(timestamps(&s.load_all().unwrap()), vec![10, 30, 40]);
    assert_eq!(s.generation(), generation + 1);
    // Nothing to erase: unchanged.
    s.erase_info(99).unwrap();
    assert_eq!(s.generation(), generation + 1);
    assert_eq!(s.len(), 3);
}

#[test]
fn load_info_finds_oldest_match() {
    let mut s = fresh();
    s.enqueue(&InfoSlot::new(10, 1, 1)).unwrap();
    s.enqueue(&InfoSlot::new(20, 2, 2)).unwrap();
    s.enqueue(&InfoSlot::new(20, 3, 3)).unwrap();
    assert_eq!(s.load_info(20).unwrap(), Some(InfoSlot::new(20, 2, 2)));
    assert_eq!(s.load_info(30).unwrap(), None);
}

#[test]
fn clear_range_keeps_outside() {
    let mut s = store_of(&[10, 20, 30, 40, 50]);
    s.clear_range(20, 40).unwrap();
    assert_eq!(timestamps(&s.load_all().unwrap()), vec![10, 50]);
    s.clear_range(0, 5).unwrap();
    assert_eq!(timestamps(&s.load_all().unwrap()), vec![10, 50]);
}

#[test]
fn dequeue_then_enqueue_wraps() {
    let mut s = store_of(&[1, 2]);
    assert_eq!(s.dequeue().unwrap().get_unix_time(), 1);
    assert_eq!(s.dequeue().unwrap().get_unix_time(), 2);
    assert_eq!(s.dequeue(), Err(InfoStorageError::ReadError));
    s.enqueue(&slot(3)).unwrap();
    assert_eq!(timestamps(&s.load_all().unwrap()), vec![3]);
}

#[test]
fn rewrite_beyond_capacity_is_write_error() {
    let mut s = store_of(&[1]);
    let too_many: Vec<StoredRecord> =
        (0..301u32).map(|i| StoredRecord { seq: i, slot: slot(i) }).collect();
    assert_eq!(s.rewrite_records(&too_many), Err(InfoStorageError::WriteError));
    assert_eq!(s.len(), 1);
    let some: Vec<StoredRecord> =
        (0..3u32).map(|i| StoredRecord { seq: i + 10, slot: slot(i) }).collect();
    s.rewrite_records(&some).unwrap();
    assert_eq!(timestamps(&s.load_all().unwrap()), vec![0, 1, 2]);
    // The next record continues after the last sequence number.
    s.enqueue(&slot(3)).unwrap();
    let reopened = reopen(&s);
    assert_eq!(reopened.len(), 4);
}

fn reopen(s: &InfoStorage) -> InfoStorage {
    InfoStorage::new(s.data_region().to_vec(), s.meta_region().to_vec()).unwrap()
}

#[test]
fn reopen_keeps_records() {
    let s = store_of(&[10, 20, 30]);
    let mut r = reopen(&s);
    assert_eq!(timestamps(&r.load_all().unwrap()), vec![10, 20, 30]);
    assert_eq!(r.generation(), s.generation());
}

#[test]
fn corruption_recovery() {
    let s = store_of(&[100, 200, 300, 400, 500]);
    let generation = s.generation();
    let mut data = s.data_region().to_vec();
    // Corrupt the CRC of physical slot 2.
    data[2 * 16 + 14] ^= 0xFF;
    let mut r = InfoStorage::new(data, s.meta_region().to_vec()).unwrap();
    assert_eq!(r.len(), 4);
    assert_eq!(timestamps(&r.load_all().unwrap()), vec![100, 200, 400, 500]);
    assert_eq!(r.generation(), generation + 1);
}

#[test]
fn recovery_sorts_by_sequence_number() {
    let mut data = vec![0u8; 4800];
    let order = [(0usize, 7u32, 70u32), (1, 3, 30), (2, 5, 50)];
    for &(idx, seq, ts) in &order {
        let rec = encode_record(seq, &slot(ts));
        data[idx * 16..idx * 16 + 16].copy_from_slice(&rec);
    }
    // A descriptor that claims three records but in the wrong order.
    let st = StorageState { head: 0, tail: 3, count: 3, next_seq: 8, generation: 4 };
    let mut meta = st.to_bytes();
    meta.extend_from_slice(&st.to_bytes());
    let mut r = InfoStorage::new(data, meta).unwrap();
    assert_eq!(timestamps(&r.load_all().unwrap()), vec![30, 50, 70]);
    assert_eq!(r.generation(), 5);
    r.enqueue(&slot(80)).unwrap();
    assert_eq!(r.len(), 4);
}

#[test]
fn recovery_of_nothing_resets() {
    let st = StorageState { head: 0, tail: 2, count: 2, next_seq: 8, generation: 4 };
    let mut meta = st.to_bytes();
    meta.extend_from_slice(&st.to_bytes());
    let mut r = InfoStorage::new(vec![0u8; 4800], meta).unwrap();
    assert_eq!(r.len(), 0);
    assert_eq!(r.generation(), 0);
    assert_eq!(r.dequeue(), Err(InfoStorageError::ReadError));
}

#[test]
fn recover_on_demand_keeps_valid_ring() {
    let mut s = store_of(&[1, 2, 3]);
    let generation = s.generation();
    RecoverableStorage::recover(&mut s).unwrap();
    s.recover().unwrap();
    assert_eq!(s.generation(), generation);
    assert_eq!(timestamps(&s.load_all().unwrap()), vec![1, 2, 3]);
}

#[test]
fn metadata_copy_selection_on_open() {
    let s = store_of(&[1, 2, 3]);
    let mut meta = s.meta_region().to_vec();
    // Damage the first copy: the second one is used.
    meta[0] ^= 0xFF;
    let mut r = InfoStorage::new(s.data_region().to_vec(), meta).unwrap();
    assert_eq!(timestamps(&r.load_all().unwrap()), vec![1, 2, 3]);
}

#[test]
fn wrong_region_sizes_reinitialise() {
    let mut r = InfoStorage::new(vec![1u8; 100], vec![1u8; 10]).unwrap();
    assert_eq!(r.len(), 0);
    assert_eq!(r.data_region().len(), 4800);
    assert_eq!(r.meta_region(), &[0u8; 48][..]);
    assert_eq!(r.load_all().unwrap(), Vec::<InfoSlot>::new());
}

#[test]
fn persist_all_enqueues_in_order() {
    let mut s = store_of(&[1]);
    s.persist_all(vec![slot(2), slot(3), slot(4)]).unwrap();
    assert_eq!(timestamps(&s.load_all().unwrap()), vec![1, 2, 3, 4]);
    s.persist_all(Vec::new()).unwrap();
    assert_eq!(s.len(), 4);
}

#[test]
fn open_sets_tail_after_head() {
    let st = StorageState { head: 4, tail: 9, count: 0, next_seq: 2, generation: 1 };
    let mut meta = st.to_bytes();
    meta.extend_from_slice(&st.to_bytes());
    let mut r = InfoStorage::new(vec![0u8; 4800], meta).unwrap();
    assert_eq!(r.len(), 0);
    r.enqueue(&slot(11)).unwrap();
    // The record lands at the head slot, where the ring invariant puts the tail.
    assert_ne!(&r.data_region()[4 * 16..4 * 16 + 16], &[0u8; 16][..]);
    assert_eq!(timestamps(&r.load_all().unwrap()), vec![11]);
    let reopened = reopen(&r);
    assert_eq!(reopened.len(), 1);
}

#[test]
fn erase_and_clear_range_compact_with_zeros() {
    let mut s = store_of(&[10, 20, 30, 40]);
    s.erase_info(20).unwrap();
    assert!(s.data_region()[3 * 16..].iter().all(|&b| b == 0));
    assert!(s.data_region()[..3 * 16].iter().any(|&b| b != 0));
    s.clear_range(30, 30).unwrap();
    assert_eq!(timestamps(&s.load_all().unwrap()), vec![10, 40]);
    assert!(s.data_region()[2 * 16..].iter().all(|&b| b == 0));
}
