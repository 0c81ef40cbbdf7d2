//! The durable ring-buffered record log over a fixed byte region.
use crate::meta::{lemma_meta_round_trip, meta_image, meta_select, StorageState, META_COPIES, META_RECORD_SIZE};
use crate::record::{
    decode_record, decode_spec, encode_record, lemma_record_round_trip, record_image,
    StoredRecord, RECORD_SIZE,
};
use crate::recovery::{
    lemma_insert_at, lemma_physical_len, lemma_sort_len, physical_records, recovered, ring_valid,
    sort_by_seq, step_ok,
};
use crate::ring::{advance, phys, STORAGE_CAPACITY};
use crate::slot::InfoSlot;
use vstd::prelude::*;
use vstd::slice::slice_subrange;

verus! {

/// Length of the record region: one slot per ring position.
pub const DATA_REGION_SIZE: usize = 4800;

/// Length of the metadata region: two descriptor copies.
pub const META_REGION_SIZE: usize = 48;

/// Errors of the record log.
#[derive(Debug, Clone, Copy, PartialEq, Eq)]
pub enum InfoStorageError {
    /// A logical read failed, e.g. a dequeue on an empty store.
    ReadError,
    /// A logical write failed, e.g. a rewrite beyond the capacity.
    WriteError,
    /// The backing region is unusable.
    InitializationError,
    /// Both descriptor copies are invalid.
    MetadataCorrupted,
    /// A record that had to validate did not.
    RecordCorrupted,
    /// Writing or flushing the metadata or data failed.
    PersistenceError(&'static str),
    /// Any other failure.
    Unknown,
}

/// Something whose consistency can be restored on demand.
pub trait RecoverableStorage {
    /// The store is in a state from which recovery can run.
    spec fn recoverable(&self) -> bool;

    fn recover(&mut self) -> (r: Result<(), InfoStorageError>)
        requires
            old(self).recoverable(),
        ensures
            final(self).recoverable(),
    ;
}

/// The bytes of slot `idx` of a record region.
pub open spec fn slot_at(data: Seq<u8>, idx: int) -> Seq<u8> {
    data.subrange(idx * 16, idx * 16 + 16)
}

/// The record that slot `idx` of a region decodes to (meaningful where it decodes).
pub open spec fn record_at(data: Seq<u8>, idx: int) -> StoredRecord {
    decode_spec(slot_at(data, idx))->0
}

/// Every live slot of the ring decodes.
pub open spec fn ring_decodes(data: Seq<u8>, st: StorageState) -> bool {
    forall|i: int|
        0 <= i < st.count ==> (#[trigger] decode_spec(slot_at(data, phys(st.head as int, i))))
            is Some
}

/// The live records in FIFO order, oldest first.
pub open spec fn ring_records(data: Seq<u8>, st: StorageState) -> Seq<StoredRecord> {
    Seq::new(st.count as nat, |i: int| record_at(data, phys(st.head as int, i)))
}

/// The measurements of a sequence of records.
pub open spec fn slots_of(recs: Seq<StoredRecord>) -> Seq<InfoSlot> {
    recs.map_values(|r: StoredRecord| r.slot)
}

/// The successor of a 32-bit counter, wrapping to zero.
pub open spec fn bump(x: u32) -> u32 {
    if x == u32::MAX {
        0
    } else {
        (x + 1) as u32
    }
}

/// The live records after one enqueue of `slot` under sequence number `seq`.
pub open spec fn enqueued(recs: Seq<StoredRecord>, seq: u32, slot: InfoSlot) -> Seq<StoredRecord> {
    (if recs.len() < STORAGE_CAPACITY {
        recs
    } else {
        recs.drop_first()
    }).push(StoredRecord { seq, slot })
}

/// The live records and the next sequence number after enqueueing `slots` in order.
pub open spec fn enqueued_all(recs: Seq<StoredRecord>, next_seq: u32, slots: Seq<InfoSlot>) -> (
    Seq<StoredRecord>,
    u32,
)
    decreases slots.len(),
{
    if slots.len() == 0 {
        (recs, next_seq)
    } else {
        let (r, n) = enqueued_all(recs, next_seq, slots.drop_last());
        (enqueued(r, n, slots.last()), bump(n))
    }
}

/// Sixteen zero bytes: a never-written slot.
pub open spec fn zero_slot() -> Seq<u8> {
    Seq::new(16, |i: int| 0u8)
}

/// Records whose timestamp lies in `[lo, hi]`.
pub open spec fn in_window(lo: u32, hi: u32) -> spec_fn(StoredRecord) -> bool {
    |r: StoredRecord| lo <= r.slot.timestamp && r.slot.timestamp <= hi
}

/// Records whose timestamp lies outside `[lo, hi]`.
pub open spec fn outside_window(lo: u32, hi: u32) -> spec_fn(StoredRecord) -> bool {
    |r: StoredRecord| r.slot.timestamp < lo || r.slot.timestamp > hi
}

/// Records whose timestamp differs from `t`.
pub open spec fn other_time(t: u32) -> spec_fn(StoredRecord) -> bool {
    |r: StoredRecord| r.slot.timestamp != t
}

/// A record region holding `recs` in slots `0..recs.len()` and zeros elsewhere.
pub open spec fn compact_region(data: Seq<u8>, recs: Seq<StoredRecord>) -> bool {
    &&& data.len() == DATA_REGION_SIZE
    &&& forall|q: int|
        0 <= q < STORAGE_CAPACITY ==> #[trigger] slot_at(data, q) == if q < recs.len() {
            record_image(recs[q].seq, recs[q].slot)
        } else {
            zero_slot()
        }
}

/// The ring walk fails fast validation, so a full scan rebuilds it.
pub open spec fn needs_rebuild(data: Seq<u8>, st: StorageState) -> bool {
    st.count > 0 && !ring_valid(data, st)
}

/// The record region that opening starts from: the stored one, or zeros where its
/// length is wrong.
pub open spec fn opened_data(stored: Seq<u8>) -> Seq<u8> {
    if stored.len() == DATA_REGION_SIZE {
        stored
    } else {
        Seq::new(DATA_REGION_SIZE as nat, |i: int| 0u8)
    }
}

/// The metadata region that opening starts from: the stored one, or zeros where its
/// length is wrong.
pub open spec fn opened_meta(stored: Seq<u8>) -> Seq<u8> {
    if stored.len() == META_REGION_SIZE {
        stored
    } else {
        Seq::new(META_REGION_SIZE as nat, |i: int| 0u8)
    }
}

/// The ring state that opening starts from: the better descriptor copy with its tail
/// set `count` slots after its head, or the empty ring.
pub open spec fn opened_state(stored: Seq<u8>) -> StorageState {
    if stored.len() == META_REGION_SIZE {
        match meta_select(stored.subrange(0, 24), stored.subrange(24, 48)) {
            Some(st) => st.with_ring_tail(),
            None => StorageState::empty(),
        }
    } else {
        StorageState::empty()
    }
}

/// `n` zero bytes.
fn zeroed(n: usize) -> (r: Vec<u8>)
    ensures
        r@ == Seq::new(n as nat, |i: int| 0u8),
{
    let mut v: Vec<u8> = Vec::new();
    let mut i: usize = 0;
    while i < n
        invariant
            i <= n,
            v@ == Seq::new(i as nat, |j: int| 0u8),
        decreases n - i,
    {
        v.push(0);
        i += 1;
        assert(v@ =~= Seq::new(i as nat, |j: int| 0u8));
    }
    v
}

/// Lays out `recs` in slots `0..recs.len()` of a fresh region, zeros elsewhere.
fn build_region(recs: &[StoredRecord]) -> (r: Vec<u8>)
    requires
        recs@.len() <= STORAGE_CAPACITY,
    ensures
        compact_region(r@, recs@),
{
    let mut data: Vec<u8> = Vec::new();
    let mut i: usize = 0;
    while i < STORAGE_CAPACITY as usize
        invariant
            i <= STORAGE_CAPACITY,
            recs@.len() <= STORAGE_CAPACITY,
            data@.len() == i * 16,
            forall|q: int|
                0 <= q < i ==> #[trigger] slot_at(data@, q) == if q < recs@.len() {
                    record_image(recs@[q].seq, recs@[q].slot)
                } else {
                    zero_slot()
                },
        decreases STORAGE_CAPACITY - i,
    {
        let mut bytes = if i < recs.len() {
            let rec = recs[i];
            encode_record(rec.seq, &rec.slot)
        } else {
            zeroed(RECORD_SIZE)
        };
        proof {
            if i < recs@.len() {
                lemma_record_round_trip(recs@[i as int].seq, recs@[i as int].slot);
            } else {
                assert(bytes@ =~= zero_slot());
            }
        }
        let ghost prev = data@;
        let ghost added = bytes@;
        data.append(&mut bytes);
        proof {
            assert forall|q: int| 0 <= q < i + 1 implies #[trigger] slot_at(data@, q) == if q
                < recs@.len() {
                record_image(recs@[q].seq, recs@[q].slot)
            } else {
                zero_slot()
            } by {
                if q < i {
                    assert(slot_at(data@, q) =~= slot_at(prev, q));
                } else {
                    assert(slot_at(data@, q) =~= added);
                }
            }
        }
        i += 1;
    }
    data
}

/// Sorts records by sequence number, keeping the order of equal ones.
fn sort_records(records: &Vec<StoredRecord>) -> (r: Vec<StoredRecord>)
    ensures
        r@ == sort_by_seq(records@),
{
    let mut out: Vec<StoredRecord> = Vec::new();
    let mut i: usize = 0;
    while i < records.len()
        invariant
            i <= records@.len(),
            out@ == sort_by_seq(records@.take(i as int)),
        decreases records@.len() - i,
    {
        let r = records[i];
        let mut j: usize = out.len();
        while j > 0 && out[j - 1].seq > r.seq
            invariant
                j <= out@.len(),
                forall|k: int| j <= k < out@.len() ==> #[trigger] out@[k].seq > r.seq,
            decreases j,
        {
            j -= 1;
        }
        proof {
            lemma_insert_at(out@, r, j as int);
            assert(records@.take(i + 1).drop_last() =~= records@.take(i as int));
        }
        out.insert(j, r);
        i += 1;
    }
    assert(records@.take(i as int) =~= records@);
    out
}

/// The log: a record region, a metadata region and the ring state that describes them.
pub struct InfoStorage {
    data: Vec<u8>,
    meta: Vec<u8>,
    state: StorageState,
}

impl InfoStorage {
    /// Region lengths are fixed, the ring invariant holds, and every live slot decodes.
    pub closed spec fn wf(&self) -> bool {
        &&& self.data@.len() == DATA_REGION_SIZE
        &&& self.meta@.len() == META_REGION_SIZE
        &&& self.state.wf()
        &&& ring_decodes(self.data@, self.state)
    }

    /// The live records, oldest first.
    pub closed spec fn records(&self) -> Seq<StoredRecord> {
        ring_records(self.data@, self.state)
    }

    /// The ring state.
    pub closed spec fn ring_state(&self) -> StorageState {
        self.state
    }

    /// The bytes of the record region.
    pub closed spec fn data_bytes(&self) -> Seq<u8> {
        self.data@
    }

    /// The bytes of the metadata region.
    pub closed spec fn meta_bytes(&self) -> Seq<u8> {
        self.meta@
    }

    /// A well-formed store has fixed region lengths, a ring state that keeps the ring
    /// invariant, and as many live records as the state counts.
    pub proof fn lemma_wf_facts(&self)
        requires
            self.wf(),
        ensures
            self.ring_state().wf(),
            self.ring_state().count == self.records().len(),
            self.data_bytes().len() == DATA_REGION_SIZE,
            self.meta_bytes().len() == META_REGION_SIZE,
    {
    }

    /// The metadata region holds the current ring state in both copies.
    pub open spec fn meta_persisted(&self) -> bool {
        self.meta_bytes() == meta_image(self.ring_state()) + meta_image(self.ring_state())
    }

    /// Overwrites slot `idx` of the record region with `bytes`.
    fn write_slot(&mut self, idx: u16, bytes: &Vec<u8>)
        requires
            old(self).data@.len() == DATA_REGION_SIZE,
            idx < STORAGE_CAPACITY,
            bytes@.len() == RECORD_SIZE,
        ensures
            final(self).data@.len() == DATA_REGION_SIZE,
            final(self).state == old(self).state,
            final(self).meta@ == old(self).meta@,
            forall|q: int|
                0 <= q < STORAGE_CAPACITY ==> #[trigger] slot_at(final(self).data@, q) == if q
                    == idx {
                    bytes@
                } else {
                    slot_at(old(self).data@, q)
                },
    {
        let base: usize = (idx as usize) * RECORD_SIZE;
        let mut k: usize = 0;
        while k < RECORD_SIZE
            invariant
                base == idx * 16,
                idx < STORAGE_CAPACITY,
                bytes@.len() == RECORD_SIZE,
                k <= RECORD_SIZE,
                self.data@.len() == DATA_REGION_SIZE,
                self.state == old(self).state,
                self.meta@ == old(self).meta@,
                forall|j: int|
                    0 <= j < DATA_REGION_SIZE ==> #[trigger] self.data@[j] == if base <= j < base
                        + k {
                        bytes@[j - base]
                    } else {
                        old(self).data@[j]
                    },
            decreases RECORD_SIZE - k,
        {
            self.data.set(base + k, bytes[k]);
            k += 1;
        }
        assert forall|q: int| 0 <= q < STORAGE_CAPACITY implies #[trigger] slot_at(
            self.data@,
            q,
        ) == if q == idx {
            bytes@
        } else {
            slot_at(old(self).data@, q)
        } by {
            if q == idx {
                assert(slot_at(self.data@, q) =~= bytes@);
            } else {
                assert(slot_at(self.data@, q) =~= slot_at(old(self).data@, q));
            }
        }
    }

    /// Writes the current ring state to both descriptor copies.
    fn write_meta(&mut self)
        requires
            old(self).state.wf(),
        ensures
            final(self).meta@.len() == META_REGION_SIZE,
            final(self).data@ == old(self).data@,
            final(self).state == old(self).state,
            final(self).meta@ == meta_image(old(self).state) + meta_image(old(self).state),
    {
        proof {
            lemma_meta_round_trip(self.state);
        }
        let mut buf = self.state.to_bytes();
        let mut second = self.state.to_bytes();
        buf.append(&mut second);
        self.meta = buf;
    }

    /// Number of record slots.
    pub fn capacity(&self) -> (r: usize)
        ensures
            r == STORAGE_CAPACITY,
    {
        STORAGE_CAPACITY as usize
    }

    /// Number of live records.
    pub fn len(&self) -> (r: usize)
        requires
            self.wf(),
        ensures
            r == self.records().len(),
    {
        self.state.count as usize
    }

    /// Current generation of the ring state.
    pub fn generation(&self) -> (r: u32)
        ensures
            r == self.ring_state().generation,
    {
        self.state.generation
    }

    /// The record region, as it is to be stored.
    pub fn data_region(&self) -> (r: &[u8])
        ensures
            r@ == self.data_bytes(),
    {
        self.data.as_slice()
    }

    /// The metadata region, as it is to be stored.
    pub fn meta_region(&self) -> (r: &[u8])
        ensures
            r@ == self.meta_bytes(),
    {
        self.meta.as_slice()
    }

    /// Appends a measurement under the next sequence number; when the ring is full the
    /// oldest record is dropped.
    pub fn enqueue(&mut self, info: &InfoSlot) -> (r: Result<(), InfoStorageError>)
        requires
            old(self).wf(),
        ensures
            final(self).wf(),
            r is Ok,
            final(self).records() == enqueued(
                old(self).records(),
                old(self).ring_state().next_seq,
                *info,
            ),
            final(self).ring_state().next_seq == bump(old(self).ring_state().next_seq),
            final(self).ring_state().generation == bump(old(self).ring_state().generation),
            final(self).meta_persisted(),
    {
        let seq = self.state.next_seq;
        let index = self.state.tail;
        let bytes = encode_record(seq, info);
        let ghost old_data = self.data@;
        let ghost old_state = self.state;
        proof {
            lemma_record_round_trip(seq, *info);
        }
        self.write_slot(index, &bytes);
        if self.state.count == STORAGE_CAPACITY {
            self.state.head = advance(self.state.head, 1);
        } else {
            self.state.count = self.state.count + 1;
        }
        self.state.tail = advance(self.state.tail, 1);
        self.state.next_seq = self.state.next_seq.wrapping_add(1);
        self.state.generation = self.state.generation.wrapping_add(1);
        proof {
            let new_recs = ring_records(self.data@, self.state);
            let old_recs = ring_records(old_data, old_state);
            let expect = (if old_state.count < STORAGE_CAPACITY {
                old_recs
            } else {
                old_recs.drop_first()
            }).push(StoredRecord { seq, slot: *info });
            assert forall|i: int| 0 <= i < self.state.count implies (#[trigger] decode_spec(
                slot_at(self.data@, phys(self.state.head as int, i)),
            )) is Some && record_at(self.data@, phys(self.state.head as int, i)) == expect[i] by {
                if old_state.count < STORAGE_CAPACITY {
                    if i < old_state.count {
                        assert(decode_spec(slot_at(old_data, phys(old_state.head as int, i)))
                            is Some);
                    }
                } else {
                    if i < old_state.count - 1 {
                        assert(decode_spec(
                            slot_at(old_data, phys(old_state.head as int, i + 1)),
                        ) is Some);
                    }
                }
            }
            assert(new_recs =~= expect);
        }
        self.write_meta();
        Ok(())
    }

    /// Enqueues every measurement of `infos`, in order.
    pub fn persist_all(&mut self, infos: Vec<InfoSlot>) -> (r: Result<(), InfoStorageError>)
        requires
            old(self).wf(),
        ensures
            final(self).wf(),
            r is Ok,
            (final(self).records(), final(self).ring_state().next_seq) == enqueued_all(
                old(self).records(),
                old(self).ring_state().next_seq,
                infos@,
            ),
            infos@.len() > 0 ==> final(self).meta_persisted(),
    {
        let mut i: usize = 0;
        while i < infos.len()
            invariant
                self.wf(),
                i <= infos@.len(),
                (self.records(), self.state.next_seq) == enqueued_all(
                    old(self).records(),
                    old(self).state.next_seq,
                    infos@.take(i as int),
                ),
                i > 0 ==> self.meta_persisted(),
            decreases infos@.len() - i,
        {
            let info = infos[i];
            assert(infos@.take(i + 1).drop_last() =~= infos@.take(i as int));
            let _ = self.enqueue(&info);
            i += 1;
        }
        assert(infos@.take(i as int) =~= infos@);
        Ok(())
    }

    /// Removes and returns the oldest measurement; `ReadError` when the store is empty.
    pub fn dequeue(&mut self) -> (r: Result<InfoSlot, InfoStorageError>)
        requires
            old(self).wf(),
        ensures
            final(self).wf(),
            old(self).records().len() == 0 ==> r == Err::<InfoSlot, InfoStorageError>(
                InfoStorageError::ReadError,
            ) && *final(self) == *old(self),
            old(self).records().len() > 0 ==> {
                &&& r == Ok::<InfoSlot, InfoStorageError>(old(self).records()[0].slot)
                &&& final(self).records() == old(self).records().drop_first()
                &&& final(self).ring_state().next_seq == old(self).ring_state().next_seq
                &&& final(self).ring_state().generation == bump(
                    old(self).ring_state().generation,
                )
                &&& final(self).meta_persisted()
            },
    {
        if self.state.count == 0 {
            return Err(InfoStorageError::ReadError);
        }
        let ghost old_data = self.data@;
        let ghost old_state = self.state;
        let index = self.state.head;
        let start: usize = (index as usize) * RECORD_SIZE;
        let record = decode_record(slice_subrange(self.data.as_slice(), start, start + RECORD_SIZE));
        assert(decode_spec(slot_at(old_data, phys(old_state.head as int, 0))) is Some);
        let record = match record {
            Some(rec) => rec,
            None => {
                return Err(InfoStorageError::RecordCorrupted);
            },
        };
        self.state.head = advance(self.state.head, 1);
        self.state.count = self.state.count - 1;
        if self.state.count == 0 {
            self.state.tail = self.state.head;
        }
        self.state.generation = self.state.generation.wrapping_add(1);
        proof {
            let old_recs = ring_records(old_data, old_state);
            assert forall|i: int| 0 <= i < self.state.count implies (#[trigger] decode_spec(
                slot_at(self.data@, phys(self.state.head as int, i)),
            )) is Some && record_at(self.data@, phys(self.state.head as int, i))
                == old_recs.drop_first()[i] by {
                assert(decode_spec(slot_at(old_data, phys(old_state.head as int, i + 1))) is Some);
            }
            assert(ring_records(self.data@, self.state) =~= old_recs.drop_first());
        }
        self.write_meta();
        Ok(record.slot)
    }

    /// Decodes physical slot `index` of the record region.
    fn read_record(&self, index: u16) -> (r: Option<StoredRecord>)
        requires
            self.data@.len() == DATA_REGION_SIZE,
            index < STORAGE_CAPACITY,
        ensures
            r == decode_spec(slot_at(self.data@, index as int)),
    {
        let start: usize = (index as usize) * RECORD_SIZE;
        decode_record(slice_subrange(self.data.as_slice(), start, start + RECORD_SIZE))
    }

    /// The live records, oldest first.
    fn collect_records(&self) -> (r: Vec<StoredRecord>)
        requires
            self.wf(),
        ensures
            r@ == self.records(),
    {
        let mut out: Vec<StoredRecord> = Vec::new();
        let mut index = self.state.head;
        let mut i: u16 = 0;
        while i < self.state.count
            invariant
                self.wf(),
                i <= self.state.count,
                index == phys(self.state.head as int, i as int),
                out@ == self.records().take(i as int),
            decreases self.state.count - i,
        {
            let rec = self.read_record(index);
            assert(decode_spec(slot_at(self.data@, phys(self.state.head as int, i as int)))
                is Some);
            let rec = match rec {
                Some(r) => r,
                None => {
                    assert(false);
                    StoredRecord { seq: 0, slot: InfoSlot { timestamp: 0, temperature: 0, humidity: 0 } }
                },
            };
            out.push(rec);
            index = advance(index, 1);
            i += 1;
            assert(out@ =~= self.records().take(i as int));
        }
        assert(self.records().take(i as int) =~= self.records());
        out
    }

    /// The measurements whose timestamp lies in `[start_time, end_time]`, oldest first.
    pub fn find_range(&mut self, start_time: u32, end_time: u32) -> (r: Result<
        Vec<InfoSlot>,
        InfoStorageError,
    >)
        requires
            old(self).wf(),
        ensures
            *final(self) == *old(self),
            r matches Ok(v) && v@ == slots_of(
                old(self).records().filter(in_window(start_time, end_time)),
            ),
    {
        let records = self.collect_records();
        let ghost recs = records@;
        let mut result: Vec<InfoSlot> = Vec::new();
        let mut i: usize = 0;
        while i < records.len()
            invariant
                recs == records@,
                i <= recs.len(),
                result@ == slots_of(recs.take(i as int).filter(in_window(start_time, end_time))),
            decreases recs.len() - i,
        {
            let record = records[i];
            let ts = record.slot.get_unix_time();
            let ghost prev = recs.take(i as int).filter(in_window(start_time, end_time));
            proof {
                lemma_filter_step(recs, i as int, in_window(start_time, end_time));
            }
            if ts >= start_time && ts <= end_time {
                result.push(record.slot);
                assert(slots_of(prev.push(record)) =~= slots_of(prev).push(record.slot));
            }
            i += 1;
        }
        assert(recs.take(i as int) =~= recs);
        Ok(result)
    }

    /// Every live measurement, oldest first.
    pub fn load_all(&mut self) -> (r: Result<Vec<InfoSlot>, InfoStorageError>)
        requires
            old(self).wf(),
        ensures
            *final(self) == *old(self),
            r matches Ok(v) && v@ == slots_of(old(self).records()),
    {
        let records = self.collect_records();
        let ghost recs = records@;
        let mut result: Vec<InfoSlot> = Vec::new();
        let mut i: usize = 0;
        while i < records.len()
            invariant
                recs == records@,
                i <= recs.len(),
                result@ == slots_of(recs.take(i as int)),
            decreases recs.len() - i,
        {
            result.push(records[i].slot);
            i += 1;
            assert(result@ =~= slots_of(recs.take(i as int)));
        }
        assert(recs.take(i as int) =~= recs);
        Ok(result)
    }

    /// The oldest live measurement with the given timestamp, if any.
    pub fn load_info(&mut self, timestamp: u32) -> (r: Result<Option<InfoSlot>, InfoStorageError>)
        requires
            old(self).wf(),
        ensures
            *final(self) == *old(self),
            r is Ok,
            r matches Ok(None) ==> forall|i: int|
                0 <= i < old(self).records().len() ==> #[trigger] old(
                    self,
                ).records()[i].slot.timestamp != timestamp,
            r matches Ok(Some(s)) ==> exists|i: int|
                0 <= i < old(self).records().len() && old(self).records()[i].slot == s
                    && s.timestamp == timestamp && forall|j: int|
                    0 <= j < i ==> #[trigger] old(self).records()[j].slot.timestamp
                        != timestamp,
    {
        let records = self.collect_records();
        let ghost recs = records@;
        let mut i: usize = 0;
        while i < records.len()
            invariant
                recs == records@,
                recs == old(self).records(),
                i <= recs.len(),
                forall|j: int| 0 <= j < i ==> #[trigger] recs[j].slot.timestamp != timestamp,
            decreases recs.len() - i,
        {
            if records[i].slot.get_unix_time() == timestamp {
                let ghost k = i as int;
                assert(0 <= k < old(self).records().len() && old(self).records()[k].slot
                    == records@[k].slot && records@[k].slot.timestamp == timestamp && forall|j: int|
                    0 <= j < k ==> #[trigger] old(self).records()[j].slot.timestamp != timestamp);
                return Ok(Some(records[i].slot));
            }
            i += 1;
        }
        Ok(None)
    }

    /// Replaces the live records by `records`, laid out from slot 0; `WriteError` when
    /// they do not fit.
    pub fn rewrite_records(&mut self, records: &[StoredRecord]) -> (r: Result<(), InfoStorageError>)
        requires
            old(self).wf(),
        ensures
            final(self).wf(),
            records@.len() > STORAGE_CAPACITY ==> r == Err::<(), InfoStorageError>(
                InfoStorageError::WriteError,
            ) && *final(self) == *old(self),
            records@.len() <= STORAGE_CAPACITY ==> {
                &&& r is Ok
                &&& final(self).records() == records@
                &&& compact_region(final(self).data_bytes(), records@)
                &&& final(self).ring_state().head == 0
                &&& final(self).ring_state().next_seq == if records@.len() == 0 {
                    old(self).ring_state().next_seq
                } else {
                    bump(records@.last().seq)
                }
                &&& final(self).ring_state().generation == bump(
                    old(self).ring_state().generation,
                )
                &&& final(self).meta_persisted()
            },
    {
        if records.len() > STORAGE_CAPACITY as usize {
            return Err(InfoStorageError::WriteError);
        }
        self.compact(records);
        Ok(())
    }

    /// Drops every live record with the given timestamp and compacts the region; leaves
    /// the store untouched when there is none.
    pub fn erase_info(&mut self, timestamp: u32) -> (r: Result<(), InfoStorageError>)
        requires
            old(self).wf(),
        ensures
            final(self).wf(),
            r is Ok,
            final(self).records() == old(self).records().filter(other_time(timestamp)),
            old(self).records().filter(other_time(timestamp)).len() == old(self).records().len()
                ==> *final(self) == *old(self),
            old(self).records().filter(other_time(timestamp)).len() < old(self).records().len()
                ==> {
                &&& compact_region(final(self).data_bytes(), final(self).records())
                &&& final(self).ring_state().head == 0
                &&& final(self).ring_state().generation == bump(
                    old(self).ring_state().generation,
                )
                &&& final(self).meta_persisted()
            },
    {
        let records = self.collect_records();
        let ghost recs = records@;
        let mut kept: Vec<StoredRecord> = Vec::new();
        let mut i: usize = 0;
        while i < records.len()
            invariant
                recs == records@,
                i <= recs.len(),
                kept@ == recs.take(i as int).filter(other_time(timestamp)),
            decreases recs.len() - i,
        {
            let record = records[i];
            proof {
                lemma_filter_step(recs, i as int, other_time(timestamp));
            }
            if record.slot.get_unix_time() != timestamp {
                kept.push(record);
            }
            i += 1;
        }
        assert(recs.take(i as int) =~= recs);
        proof {
            recs.lemma_filter_len(other_time(timestamp));
        }
        if kept.len() == records.len() {
            proof {
                lemma_filter_all_kept(recs, other_time(timestamp));
            }
            return Ok(());
        }
        self.rewrite_records(kept.as_slice())
    }

    /// Drops every live record whose timestamp lies in `[start_time, end_time]` and
    /// compacts the region.
    pub fn clear_range(&mut self, start_time: u32, end_time: u32) -> (r: Result<
        (),
        InfoStorageError,
    >)
        requires
            old(self).wf(),
        ensures
            final(self).wf(),
            r is Ok,
            final(self).records() == old(self).records().filter(
                outside_window(start_time, end_time),
            ),
            compact_region(final(self).data_bytes(), final(self).records()),
            final(self).ring_state().head == 0,
            final(self).ring_state().generation == bump(old(self).ring_state().generation),
            final(self).meta_persisted(),
    {
        let records = self.collect_records();
        let ghost recs = records@;
        let mut filtered: Vec<StoredRecord> = Vec::new();
        let mut i: usize = 0;
        while i < records.len()
            invariant
                recs == records@,
                i <= recs.len(),
                filtered@ == recs.take(i as int).filter(outside_window(start_time, end_time)),
            decreases recs.len() - i,
        {
            let record = records[i];
            let ts = record.slot.get_unix_time();
            proof {
                lemma_filter_step(recs, i as int, outside_window(start_time, end_time));
            }
            if ts < start_time || ts > end_time {
                filtered.push(record);
            }
            i += 1;
        }
        assert(recs.take(i as int) =~= recs);
        proof {
            recs.lemma_filter_len(outside_window(start_time, end_time));
        }
        self.rewrite_records(filtered.as_slice())
    }

    /// Zero-fills the record region and resets the ring to its empty state.
    pub fn clear_storage(&mut self) -> (r: Result<(), InfoStorageError>)
        requires
            old(self).wf(),
        ensures
            final(self).wf(),
            r is Ok,
            final(self).records().len() == 0,
            final(self).ring_state() == StorageState::empty(),
            final(self).data_bytes() == Seq::new(DATA_REGION_SIZE as nat, |i: int| 0u8),
            final(self).meta_persisted(),
    {
        self.data = zeroed(DATA_REGION_SIZE);
        self.state = StorageState::new_empty();
        self.write_meta();
        Ok(())
    }

    /// Lays `records` out from slot 0, points the ring at them and persists the state.
    fn compact(&mut self, records: &[StoredRecord])
        requires
            old(self).data@.len() == DATA_REGION_SIZE,
            old(self).meta@.len() == META_REGION_SIZE,
            old(self).state.wf(),
            records@.len() <= STORAGE_CAPACITY,
        ensures
            final(self).wf(),
            final(self).records() == records@,
            compact_region(final(self).data@, records@),
            final(self).state.head == 0,
            final(self).state.next_seq == if records@.len() == 0 {
                old(self).state.next_seq
            } else {
                bump(records@.last().seq)
            },
            final(self).state.generation == bump(old(self).state.generation),
            final(self).meta_persisted(),
    {
        self.data = build_region(records);
        let n = records.len() as u16;
        self.state.head = 0;
        self.state.count = n;
        self.state.tail = advance(0, n);
        if n > 0 {
            self.state.next_seq = records[records.len() - 1].seq.wrapping_add(1);
        }
        self.state.generation = self.state.generation.wrapping_add(1);
        proof {
            assert forall|i: int| 0 <= i < n implies (#[trigger] decode_spec(
                slot_at(self.data@, phys(0, i)),
            )) == Some(records@[i]) by {
                lemma_record_round_trip(records@[i].seq, records@[i].slot);
            }
            assert(ring_records(self.data@, self.state) =~= records@);
        }
        self.write_meta();
    }

    /// Fast validation of the indexed ring.
    fn validate_ring(&self) -> (r: bool)
        requires
            self.data@.len() == DATA_REGION_SIZE,
            self.state.wf(),
        ensures
            r == ring_valid(self.data@, self.state),
    {
        if self.state.count == 0 {
            return true;
        }
        let ghost data = self.data@;
        let ghost st = self.state;
        let mut index = self.state.head;
        let mut last_seq: u32 = 0;
        let mut last_ts: u32 = 0;
        let mut i: u16 = 0;
        while i < self.state.count
            invariant
                data == self.data@,
                st == self.state,
                data.len() == DATA_REGION_SIZE,
                st.wf(),
                i <= st.count,
                index == phys(st.head as int, i as int),
                forall|j: int|
                    0 <= j < i ==> (#[trigger] decode_spec(slot_at(data, phys(st.head as int, j))))
                        is Some,
                forall|j: int| 0 < j < i ==> #[trigger] step_ok(data, st, j),
                i > 0 ==> last_seq == record_at(data, phys(st.head as int, i - 1)).seq,
                i > 0 ==> last_ts == record_at(data, phys(st.head as int, i - 1)).slot.timestamp,
            decreases st.count - i,
        {
            let record = match self.read_record(index) {
                Some(rec) => rec,
                None => {
                    assert(decode_spec(slot_at(data, phys(st.head as int, i as int))) is None);
                    return false;
                },
            };
            assert(record == record_at(data, phys(st.head as int, i as int)));
            if i > 0 {
                if record.seq <= last_seq || record.slot.get_unix_time() < last_ts {
                    assert(!step_ok(data, st, i as int));
                    return false;
                }
                assert(step_ok(data, st, i as int));
            }
            last_seq = record.seq;
            last_ts = record.slot.get_unix_time();
            index = advance(index, 1);
            i += 1;
        }
        true
    }

    /// Every physical slot that decodes, in slot order.
    fn scan_all_slots(&self) -> (r: Vec<StoredRecord>)
        requires
            self.data@.len() == DATA_REGION_SIZE,
        ensures
            r@ == physical_records(self.data@, 300),
    {
        let mut all: Vec<StoredRecord> = Vec::new();
        let mut idx: u16 = 0;
        while idx < STORAGE_CAPACITY
            invariant
                self.data@.len() == DATA_REGION_SIZE,
                idx <= STORAGE_CAPACITY,
                all@ == physical_records(self.data@, idx as int),
            decreases STORAGE_CAPACITY - idx,
        {
            if let Some(record) = self.read_record(idx) {
                all.push(record);
            }
            idx += 1;
        }
        all
    }

    /// Rebuilds the ring from every slot that still decodes, in sequence order.
    fn full_scan_recovery(&mut self)
        requires
            old(self).data@.len() == DATA_REGION_SIZE,
            old(self).meta@.len() == META_REGION_SIZE,
            old(self).state.wf(),
        ensures
            final(self).wf(),
            final(self).meta_persisted(),
            final(self).records() == recovered(old(self).data@),
            recovered(old(self).data@).len() == 0 ==> final(self).state == StorageState::empty()
                && final(self).data@ == old(self).data@,
            recovered(old(self).data@).len() > 0 ==> {
                &&& compact_region(final(self).data@, recovered(old(self).data@))
                &&& final(self).state.head == 0
                &&& final(self).state.next_seq == bump(recovered(old(self).data@).last().seq)
                &&& final(self).state.generation == bump(old(self).state.generation)
            },
    {
        let all_records = self.scan_all_slots();
        proof {
            lemma_physical_len(self.data@, 300);
            lemma_sort_len(all_records@);
        }
        if all_records.len() == 0 {
            self.state = StorageState::new_empty();
            self.write_meta();
            proof {
                assert(ring_records(self.data@, self.state) =~= recovered(old(self).data@));
            }
            return;
        }
        let sorted = sort_records(&all_records);
        self.compact(sorted.as_slice());
    }

    /// Runs the recovery protocol: nothing for an empty ring or one that passes fast
    /// validation, a full-scan rebuild otherwise.
    fn recover_internal(&mut self)
        requires
            old(self).data@.len() == DATA_REGION_SIZE,
            old(self).meta@.len() == META_REGION_SIZE,
            old(self).state.wf(),
        ensures
            final(self).wf(),
            !needs_rebuild(old(self).data@, old(self).state) ==> *final(self) == *old(self),
            needs_rebuild(old(self).data@, old(self).state) ==> (*final(self)).rebuilt_from( old(self).data@, old(self).state.generation),
    {
        if self.state.count == 0 {
            return;
        }
        if self.validate_ring() {
            return;
        }
        self.full_scan_recovery();
    }

    /// Runs the recovery protocol on demand.
    pub fn recover(&mut self) -> (r: Result<(), InfoStorageError>)
        requires
            old(self).wf(),
        ensures
            r is Ok,
            final(self).wf(),
            !needs_rebuild(old(self).data_bytes(), old(self).ring_state()) ==> *final(self) == *old(self),
            needs_rebuild(old(self).data_bytes(), old(self).ring_state()) ==> (*final(self)).rebuilt_from(
                old(self).data_bytes(),
                old(self).ring_state().generation,
            ),
    {
        self.recover_internal();
        Ok(())
    }

    /// Opens the log over a stored record region and metadata region. A region of the
    /// wrong length is replaced by zeros; the state comes from the better descriptor
    /// copy, with its tail set `count` slots after its head so that the ring invariant
    /// holds, or is the empty ring; then the recovery protocol runs.
    pub fn new(data_region: Vec<u8>, meta_region: Vec<u8>) -> (r: Result<Self, InfoStorageError>)
        ensures
            r matches Ok(s) && {
                let data0 = opened_data(data_region@);
                let st0 = opened_state(meta_region@);
                &&& s.wf()
                &&& !needs_rebuild(data0, st0) ==> {
                    &&& s.ring_state() == st0
                    &&& s.data_bytes() == data0
                    &&& s.meta_bytes() == opened_meta(meta_region@)
                    &&& s.records() == ring_records(data0, st0)
                }
                &&& needs_rebuild(data0, st0) ==> s.rebuilt_from(data0, st0.generation)
            },
    {
        let data = if data_region.len() == DATA_REGION_SIZE {
            data_region
        } else {
            zeroed(DATA_REGION_SIZE)
        };
        let mut loaded: Option<StorageState> = None;
        let meta = if meta_region.len() == META_REGION_SIZE {
            loaded = StorageState::load(
                slice_subrange(meta_region.as_slice(), 0, META_RECORD_SIZE),
                slice_subrange(meta_region.as_slice(), META_RECORD_SIZE, META_RECORD_SIZE * META_COPIES),
            );
            meta_region
        } else {
            zeroed(META_REGION_SIZE)
        };
        let state = match loaded {
            Some(st) => StorageState { tail: advance(st.head, st.count), ..st },
            None => StorageState::new_empty(),
        };
        let mut storage = InfoStorage { data, meta, state };
        proof {
            assert(opened_meta(meta_region@) =~= storage.meta@);
        }
        storage.recover_internal();
        Ok(storage)
    }
}

/// Filtering a prefix one element longer adds that element where it passes.
proof fn lemma_filter_step(s: Seq<StoredRecord>, i: int, p: spec_fn(StoredRecord) -> bool)
    requires
        0 <= i < s.len(),
    ensures
        s.take(i + 1).filter(p) == if p(s[i]) {
            s.take(i).filter(p).push(s[i])
        } else {
            s.take(i).filter(p)
        },
{
    reveal_with_fuel(Seq::filter, 1);
    assert(s.take(i + 1).drop_last() =~= s.take(i));
}

/// A filter that keeps as many elements as it is given keeps the sequence unchanged.
proof fn lemma_filter_all_kept(s: Seq<StoredRecord>, p: spec_fn(StoredRecord) -> bool)
    requires
        s.filter(p).len() == s.len(),
    ensures
        s.filter(p) == s,
    decreases s.len(),
{
    reveal_with_fuel(Seq::filter, 1);
    if s.len() > 0 {
        s.drop_last().lemma_filter_len(p);
        if !p(s.last()) {
            assert(false);
        }
        lemma_filter_all_kept(s.drop_last(), p);
        assert(s.drop_last().push(s.last()) =~= s);
    }
}

} // verus!

verus! {

impl InfoStorage {
    /// The store was rebuilt by a full scan of `data`: it holds what the scan recovered;
    /// when that is nothing, the empty ring.
    pub open spec fn rebuilt_from(&self, data: Seq<u8>, generation: u32) -> bool {
        &&& self.meta_persisted()
        &&& self.records() == recovered(data)
        &&& recovered(data).len() == 0 ==> self.ring_state() == StorageState::empty()
        &&& recovered(data).len() > 0 ==> {
            &&& compact_region(self.data_bytes(), recovered(data))
            &&& self.ring_state().head == 0
            &&& self.ring_state().next_seq == bump(recovered(data).last().seq)
            &&& self.ring_state().generation == bump(generation)
        }
    }
}

impl RecoverableStorage for InfoStorage {
    open spec fn recoverable(&self) -> bool {
        self.wf()
    }

    fn recover(&mut self) -> (r: Result<(), InfoStorageError>) {
        InfoStorage::recover(self)
    }
}

} // verus!
