use sensor_log::crc::crc16_ccitt;
use sensor_log::meta::StorageState;
use sensor_log::record::{decode_record, encode_record, StoredRecord};
use sensor_log::slot::InfoSlot;

#[test]
fn crc_of_check_string() {
    // CRC-16/CCITT-FALSE check value.
    assert_eq!(crc16_ccitt(b"123456789"), 0x29B1);
    assert_eq!(crc16_ccitt(&[]), 0xFFFF);
}

#[test]
fn slot_bytes_layout() {
    let slot = InfoSlot::new(0x0403_0201, -5, 250);
    assert_eq!(slot.as_bytes(), [0x01, 0x02, 0x03, 0x04, 0xFB, 250]);
    assert_eq!(InfoSlot::from_bytes(slot.as_bytes()), slot);
    assert_eq!(slot.temperature_raw(), -5);
    assert_eq!(slot.humidity_raw(), 250);
    assert_eq!(slot.timestamp_raw(), 0x0403_0201);
    let mut other = slot;
    other.set_unix_time(99);
    assert_eq!(other.get_unix_time(), 99);
    assert_eq!(other.temperature_raw(), -5);
}

#[test]
fn record_layout() {
    let slot = InfoSlot::new(1_700_000_000, 127, 255);
    let buf = encode_record(0xAABBCCDD, &slot);
    assert_eq!(buf.len(), 16);
    assert_eq!(&buf[0..2], &[0x52, 0x49]);
    assert_eq!(&buf[2..6], &[0xDD, 0xCC, 0xBB, 0xAA]);
    assert_eq!(&buf[6..10], &1_700_000_000u32.to_le_bytes());
    assert_eq!(buf[10], 127);
    assert_eq!(buf[11], 255);
    assert_eq!(&buf[12..14], &[0, 0]);
    let crc = crc16_ccitt(&buf[..14]);
    assert_eq!(&buf[14..16], &crc.to_le_bytes());
}

#[test]
fn record_round_trip() {
    for &(seq, ts, t, h) in &[(0u32, 0u32, -128i8, 0u8), (u32::MAX, u32::MAX, 127, 255), (42, 1000, -1, 100)] {
        let slot = InfoSlot::new(ts, t, h);
        let buf = encode_record(seq, &slot);
        assert_eq!(decode_record(&buf), Some(StoredRecord { seq, slot }));
    }
}

#[test]
fn record_single_bit_flip_rejected() {
    let slot = InfoSlot::new(123456, -37, 88);
    let buf = encode_record(77, &slot);
    for byte in 0..16 {
        for bit in 0..8 {
            let mut flipped = buf.clone();
            flipped[byte] ^= 1 << bit;
            assert_eq!(decode_record(&flipped), None, "byte {byte} bit {bit}");
        }
    }
}

#[test]
fn record_wrong_length_or_zero_rejected() {
    assert_eq!(decode_record(&[0u8; 16]), None);
    assert_eq!(decode_record(&[0u8; 15]), None);
}

#[test]
fn meta_round_trip_and_layout() {
    let st = StorageState { head: 5, tail: 8, count: 3, next_seq: 9, generation: 12 };
    let buf = st.to_bytes();
    assert_eq!(buf.len(), 24);
    assert_eq!(&buf[0..4], &0x4D455441u32.to_le_bytes());
    assert_eq!(&buf[4..6], &[1, 0]);
    assert_eq!(&buf[6..8], &[0, 0]);
    assert_eq!(&buf[8..12], &12u32.to_le_bytes());
    assert_eq!(&buf[12..14], &5u16.to_le_bytes());
    assert_eq!(&buf[14..16], &8u16.to_le_bytes());
    assert_eq!(&buf[16..18], &3u16.to_le_bytes());
    assert_eq!(&buf[18..22], &9u32.to_le_bytes());
    assert_eq!(&buf[22..24], &crc16_ccitt(&buf[..22]).to_le_bytes());
    assert_eq!(StorageState::from_bytes(&buf), Some(st));
}

#[test]
fn meta_out_of_range_rejected() {
    let bad_head = StorageState { head: 300, tail: 0, count: 0, next_seq: 0, generation: 1 };
    assert_eq!(StorageState::from_bytes(&bad_head.to_bytes()), None);
    let bad_count = StorageState { head: 0, tail: 1, count: 301, next_seq: 0, generation: 1 };
    assert_eq!(StorageState::from_bytes(&bad_count.to_bytes()), None);
    let mut corrupt = StorageState { head: 0, tail: 1, count: 1, next_seq: 1, generation: 1 }.to_bytes();
    corrupt[10] ^= 0x01;
    assert_eq!(StorageState::from_bytes(&corrupt), None);
}

#[test]
fn meta_load_prefers_higher_generation() {
    let older = StorageState { head: 1, tail: 3, count: 2, next_seq: 5, generation: 7 };
    let newer = StorageState { head: 2, tail: 3, count: 1, next_seq: 5, generation: 8 };
    let a = older.to_bytes();
    let b = newer.to_bytes();
    assert_eq!(StorageState::load(&a, &b), Some(newer));
    assert_eq!(StorageState::load(&b, &a), Some(newer));
    let garbage = [0u8; 24];
    assert_eq!(StorageState::load(&garbage, &a), Some(older));
    assert_eq!(StorageState::load(&a, &garbage), Some(older));
    assert_eq!(StorageState::load(&garbage, &garbage), None);
}

#[test]
fn meta_tail_is_not_checked_on_decode() {
    let st = StorageState { head: 0, tail: 7, count: 0, next_seq: 3, generation: 9 };
    assert_eq!(StorageState::from_bytes(&st.to_bytes()), Some(st));
    let older = StorageState { head: 1, tail: 3, count: 2, next_seq: 5, generation: 7 };
    let a = older.to_bytes();
    let b = st.to_bytes();
    assert_eq!(StorageState::load(&a, &b), Some(st));
    assert_eq!(StorageState::load(&b, &a), Some(st));
}
