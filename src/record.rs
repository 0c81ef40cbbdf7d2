//! The fixed-size binary record: magic, sequence number, measurement, CRC.
use crate::crc::{crc16, crc16_ccitt, crc_from};
use crate::crc_laws::{lemma_crc_linear, lemma_crc_single_error, seq_xor};
use crate::slot::{lemma_slot_round_trip, slot_image, slot_of_bytes, InfoSlot, SLOT_SIZE};
use vstd::bytes::{
    spec_u16_from_le_bytes, spec_u16_to_le_bytes, spec_u32_from_le_bytes, spec_u32_to_le_bytes,
    u16_from_le_bytes, u16_to_le_bytes, u32_from_le_bytes, u32_to_le_bytes,
};
use vstd::prelude::*;
use vstd::slice::slice_subrange;

verus! {

/// Marker in the first two bytes of every record ("IR").
pub const RECORD_MAGIC: u16 = 0x4952;

/// Length of an encoded record.
pub const RECORD_SIZE: usize = 16;

/// Length of the part of a record that the CRC covers.
pub const RECORD_BODY_SIZE: usize = 14;

/// A measurement paired with the sequence number it was stored under.
#[derive(Debug, Clone, Copy, PartialEq, Eq, Structural)]
pub struct StoredRecord {
    pub seq: u32,
    pub slot: InfoSlot,
}

/// The fourteen bytes that the CRC of a record covers.
pub open spec fn record_body(seq: u32, slot: InfoSlot) -> Seq<u8> {
    spec_u16_to_le_bytes(RECORD_MAGIC) + spec_u32_to_le_bytes(seq) + slot_image(slot) + seq![
        0u8,
        0u8,
    ]
}

/// The sixteen bytes of a record.
pub open spec fn record_image(seq: u32, slot: InfoSlot) -> Seq<u8> {
    record_body(seq, slot) + spec_u16_to_le_bytes(crc16(record_body(seq, slot)))
}

/// What a sixteen-byte buffer decodes to: `None` where the length, the magic or the
/// CRC does not match.
pub open spec fn decode_spec(b: Seq<u8>) -> Option<StoredRecord> {
    if b.len() != RECORD_SIZE {
        None
    } else if spec_u16_from_le_bytes(b.subrange(0, 2)) != RECORD_MAGIC {
        None
    } else if spec_u16_from_le_bytes(b.subrange(14, 16)) != crc16(b.subrange(0, 14)) {
        None
    } else {
        Some(
            StoredRecord {
                seq: spec_u32_from_le_bytes(b.subrange(2, 6)),
                slot: slot_of_bytes(b.subrange(6, 12)),
            },
        )
    }
}

/// Decoding the encoding of a record gives back its sequence number and measurement.
pub proof fn lemma_record_round_trip(seq: u32, slot: InfoSlot)
    ensures
        record_image(seq, slot).len() == RECORD_SIZE,
        decode_spec(record_image(seq, slot)) == Some(StoredRecord { seq, slot }),
{
    vstd::bytes::lemma_auto_spec_u16_to_from_le_bytes();
    vstd::bytes::lemma_auto_spec_u32_to_from_le_bytes();
    lemma_slot_round_trip(slot);
    let body = record_body(seq, slot);
    let b = record_image(seq, slot);
    assert(b.subrange(0, 2) =~= spec_u16_to_le_bytes(RECORD_MAGIC));
    assert(b.subrange(0, 14) =~= body);
    assert(b.subrange(14, 16) =~= spec_u16_to_le_bytes(crc16(body)));
    assert(b.subrange(2, 6) =~= spec_u32_to_le_bytes(seq));
    assert(b.subrange(6, 12) =~= slot_image(slot));
}

/// Flipping any single bit of an encoded record makes it fail to decode.
pub proof fn lemma_bit_flip_detected(seq: u32, slot: InfoSlot, k: int, j: u8)
    requires
        0 <= k < RECORD_SIZE,
        j < 8,
    ensures
        decode_spec(
            record_image(seq, slot).update(k, record_image(seq, slot)[k] ^ (1u8 << j)),
        ) is None,
{
    vstd::bytes::lemma_auto_spec_u16_to_from_le_bytes();
    lemma_record_round_trip(seq, slot);
    let b = record_image(seq, slot);
    let m: u8 = 1u8 << j;
    let v: u8 = b[k];
    let w: u8 = v ^ m;
    assert(m != 0) by (bit_vector)
        requires
            m == 1u8 << j,
            j < 8,
    ;
    assert(w != v) by (bit_vector)
        requires
            w == v ^ m,
            m != 0,
    ;
    let b2 = b.update(k, w);
    if k < 2 {
        assert(b2.subrange(0, 2)[k] != b.subrange(0, 2)[k]);
        if spec_u16_from_le_bytes(b2.subrange(0, 2)) == RECORD_MAGIC {
            assert(spec_u16_to_le_bytes(spec_u16_from_le_bytes(b2.subrange(0, 2))) == b2.subrange(
                0,
                2,
            ));
            assert(spec_u16_to_le_bytes(spec_u16_from_le_bytes(b.subrange(0, 2))) == b.subrange(
                0,
                2,
            ));
            assert(false);
        }
    } else if k < 14 {
        assert(b2.subrange(0, 2) =~= b.subrange(0, 2));
        assert(b2.subrange(14, 16) =~= b.subrange(14, 16));
        let body = b.subrange(0, 14);
        let e = Seq::new(14, |i: int| if i == k { m } else { 0u8 });
        assert forall|i: int| 0 <= i < 14 implies #[trigger] seq_xor(body, e)[i] == b2.subrange(
            0,
            14,
        )[i] by {
            let x: u8 = body[i];
            assert(x ^ 0u8 == x) by (bit_vector);
        }
        assert(seq_xor(body, e) =~= b2.subrange(0, 14));
        lemma_crc_linear(0xFFFFu16, 0u16, body, e);
        assert(0xFFFFu16 ^ 0u16 == 0xFFFFu16) by (bit_vector);
        lemma_crc_single_error(e, k);
        let c1: u16 = crc16(body);
        let c2: u16 = crc_from(0, e);
        let c3: u16 = c1 ^ c2;
        assert(c3 != c1) by (bit_vector)
            requires
                c3 == c1 ^ c2,
                c2 != 0,
        ;
    } else {
        assert(b2.subrange(0, 2) =~= b.subrange(0, 2));
        assert(b2.subrange(0, 14) =~= b.subrange(0, 14));
        assert(b2.subrange(14, 16)[k - 14] != b.subrange(14, 16)[k - 14]);
        if spec_u16_from_le_bytes(b2.subrange(14, 16)) == crc16(b2.subrange(0, 14)) {
            assert(spec_u16_to_le_bytes(spec_u16_from_le_bytes(b2.subrange(14, 16)))
                == b2.subrange(14, 16));
            assert(spec_u16_to_le_bytes(spec_u16_from_le_bytes(b.subrange(14, 16)))
                == b.subrange(14, 16));
            assert(false);
        }
    }
}

/// Encodes a record into its sixteen-byte form.
pub fn encode_record(seq: u32, slot: &InfoSlot) -> (r: Vec<u8>)
    ensures
        r@ == record_image(seq, *slot),
{
    proof {
        vstd::bytes::lemma_auto_spec_u16_to_from_le_bytes();
        vstd::bytes::lemma_auto_spec_u32_to_from_le_bytes();
    }
    let magic = u16_to_le_bytes(RECORD_MAGIC);
    let seq_bytes = u32_to_le_bytes(seq);
    let raw = slot.as_bytes();
    let mut buf: Vec<u8> = Vec::new();
    buf.push(magic[0]);
    buf.push(magic[1]);
    buf.push(seq_bytes[0]);
    buf.push(seq_bytes[1]);
    buf.push(seq_bytes[2]);
    buf.push(seq_bytes[3]);
    buf.push(raw[0]);
    buf.push(raw[1]);
    buf.push(raw[2]);
    buf.push(raw[3]);
    buf.push(raw[4]);
    buf.push(raw[5]);
    buf.push(0);
    buf.push(0);
    assert(buf@ =~= record_body(seq, *slot));
    let crc = crc16_ccitt(buf.as_slice());
    let crc_bytes = u16_to_le_bytes(crc);
    buf.push(crc_bytes[0]);
    buf.push(crc_bytes[1]);
    assert(buf@ =~= record_image(seq, *slot));
    buf
}

/// Decodes a record; `None` where the length, the magic or the CRC does not match.
pub fn decode_record(buf: &[u8]) -> (r: Option<StoredRecord>)
    ensures
        r == decode_spec(buf@),
{
    if buf.len() != RECORD_SIZE {
        return None;
    }
    let magic = u16_from_le_bytes(slice_subrange(buf, 0, 2));
    if magic != RECORD_MAGIC {
        return None;
    }
    let crc_expected = u16_from_le_bytes(slice_subrange(buf, 14, 16));
    let crc_actual = crc16_ccitt(slice_subrange(buf, 0, 14));
    if crc_expected != crc_actual {
        return None;
    }
    let seq = u32_from_le_bytes(slice_subrange(buf, 2, 6));
    let slot_bytes: [u8; SLOT_SIZE] = [buf[6], buf[7], buf[8], buf[9], buf[10], buf[11]];
    assert(slot_bytes@ =~= buf@.subrange(6, 12));
    let slot = InfoSlot::from_bytes(slot_bytes);
    Some(StoredRecord { seq, slot })
}

} // verus!
