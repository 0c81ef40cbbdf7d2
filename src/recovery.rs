//! What the recovery protocol computes: fast validation of the indexed ring, and the
//! records that a full scan of the region recovers, in sequence order.
use crate::meta::StorageState;
use crate::record::{decode_spec, StoredRecord};
use crate::ring::phys;
use crate::storage::{needs_rebuild, record_at, ring_decodes, slot_at};
use vstd::prelude::*;

verus! {

/// Record `i` of the ring walk follows record `i - 1`: a larger sequence number and a
/// timestamp that is not smaller.
pub open spec fn step_ok(data: Seq<u8>, st: StorageState, i: int) -> bool {
    let prev = record_at(data, phys(st.head as int, i - 1));
    let cur = record_at(data, phys(st.head as int, i));
    &&& prev.seq < cur.seq
    &&& prev.slot.timestamp <= cur.slot.timestamp
}

/// Fast validation: every live slot decodes, sequence numbers strictly increase and
/// timestamps do not decrease along the ring.
pub open spec fn ring_valid(data: Seq<u8>, st: StorageState) -> bool {
    &&& ring_decodes(data, st)
    &&& forall|i: int| 0 < i < st.count ==> #[trigger] step_ok(data, st, i)
}

/// The records that decode among physical slots `0..n`, in slot order.
pub open spec fn physical_records(data: Seq<u8>, n: int) -> Seq<StoredRecord>
    decreases n,
{
    if n <= 0 {
        Seq::empty()
    } else {
        let prev = physical_records(data, n - 1);
        match decode_spec(slot_at(data, n - 1)) {
            Some(r) => prev.push(r),
            None => prev,
        }
    }
}

/// Inserts `r` into `s` after every trailing element whose sequence number is not
/// larger (stable insertion).
pub open spec fn insert_by_seq(s: Seq<StoredRecord>, r: StoredRecord) -> Seq<StoredRecord>
    decreases s.len(),
{
    if s.len() == 0 {
        seq![r]
    } else if s.last().seq <= r.seq {
        s.push(r)
    } else {
        insert_by_seq(s.drop_last(), r).push(s.last())
    }
}

/// Stable sort by sequence number.
pub open spec fn sort_by_seq(s: Seq<StoredRecord>) -> Seq<StoredRecord>
    decreases s.len(),
{
    if s.len() == 0 {
        s
    } else {
        insert_by_seq(sort_by_seq(s.drop_last()), s.last())
    }
}

/// What a full scan recovers from a record region: every slot that decodes, sorted by
/// sequence number.
pub open spec fn recovered(data: Seq<u8>) -> Seq<StoredRecord> {
    sort_by_seq(physical_records(data, 300))
}

/// A scan of `n` slots finds at most `n` records.
pub proof fn lemma_physical_len(data: Seq<u8>, n: int)
    requires
        n >= 0,
    ensures
        physical_records(data, n).len() <= n,
    decreases n,
{
    if n > 0 {
        lemma_physical_len(data, n - 1);
    }
}

/// Insertion adds one element.
pub proof fn lemma_insert_len(s: Seq<StoredRecord>, r: StoredRecord)
    ensures
        insert_by_seq(s, r).len() == s.len() + 1,
    decreases s.len(),
{
    if s.len() > 0 && s.last().seq > r.seq {
        lemma_insert_len(s.drop_last(), r);
    }
}

/// Sorting keeps the length.
pub proof fn lemma_sort_len(s: Seq<StoredRecord>)
    ensures
        sort_by_seq(s).len() == s.len(),
    decreases s.len(),
{
    if s.len() > 0 {
        lemma_sort_len(s.drop_last());
        lemma_insert_len(sort_by_seq(s.drop_last()), s.last());
    }
}

/// Stable insertion puts `r` right after the last element with a sequence number not
/// larger than its own.
pub proof fn lemma_insert_at(s: Seq<StoredRecord>, r: StoredRecord, j: int)
    requires
        0 <= j <= s.len(),
        j == 0 || s[j - 1].seq <= r.seq,
        forall|k: int| j <= k < s.len() ==> #[trigger] s[k].seq > r.seq,
    ensures
        insert_by_seq(s, r) == s.insert(j, r),
    decreases s.len(),
{
    if s.len() == 0 {
        assert(s.insert(j, r) =~= seq![r]);
    } else if s.last().seq <= r.seq {
        assert(j == s.len());
        assert(s.insert(j, r) =~= s.push(r));
    } else {
        let t = s.drop_last();
        lemma_insert_at(t, r, j);
        assert(s.insert(j, r) =~= t.insert(j, r).push(s.last()));
    }
}

/// Sequence numbers do not decrease along `s`.
pub open spec fn sorted_by_seq(s: Seq<StoredRecord>) -> bool {
    forall|i: int, j: int| 0 <= i < j < s.len() ==> #[trigger] s[i].seq <= #[trigger] s[j].seq
}

/// Stable insertion into a sorted sequence keeps it sorted and adds exactly `r`.
pub proof fn lemma_insert_sorted(s: Seq<StoredRecord>, r: StoredRecord)
    requires
        sorted_by_seq(s),
    ensures
        sorted_by_seq(insert_by_seq(s, r)),
        insert_by_seq(s, r).to_multiset() == s.to_multiset().insert(r),
    decreases s.len(),
{
    broadcast use vstd::seq_lib::group_to_multiset_ensures;

    if s.len() == 0 {
        assert(seq![r] =~= Seq::<StoredRecord>::empty().push(r));
    } else if s.last().seq <= r.seq {
    } else {
        let p = s.drop_last();
        let l = s.last();
        let t = insert_by_seq(p, r);
        lemma_insert_sorted(p, r);
        assert(s =~= p.push(l));
        assert forall|i: int| 0 <= i < t.len() implies t[i].seq <= l.seq by {
            let x = t[i];
            assert(t.contains(x));
            assert(t.to_multiset().count(x) > 0);
            if x != r {
                assert(p.to_multiset().count(x) > 0);
                assert(p.contains(x));
                let j = choose|j: int| 0 <= j < p.len() && p[j] == x;
                assert(s[j].seq <= s[s.len() - 1].seq);
            }
        }
        let u = t.push(l);
        assert forall|i: int, j: int| 0 <= i < j < u.len() implies #[trigger] u[i].seq <= #[trigger] u[j].seq by {
            if j < t.len() {
                assert(u[i] == t[i] && u[j] == t[j]);
            } else {
                assert(u[i] == t[i]);
            }
        }
        assert(u.to_multiset() =~= s.to_multiset().insert(r));
    }
}

/// Sorting gives a sorted rearrangement of its input.
pub proof fn lemma_sort_sorted(s: Seq<StoredRecord>)
    ensures
        sorted_by_seq(sort_by_seq(s)),
        sort_by_seq(s).to_multiset() == s.to_multiset(),
    decreases s.len(),
{
    broadcast use vstd::seq_lib::group_to_multiset_ensures;

    if s.len() > 0 {
        lemma_sort_sorted(s.drop_last());
        lemma_insert_sorted(sort_by_seq(s.drop_last()), s.last());
        assert(s =~= s.drop_last().push(s.last()));
    }
}

/// A live slot that fails its check makes fast validation fail, so the store is
/// rebuilt; the full scan then yields exactly the slots that still decode, in order of
/// sequence number.
pub proof fn lemma_corruption_recovery(data: Seq<u8>, st: StorageState, k: int)
    requires
        st.wf(),
        0 <= k < st.count,
        decode_spec(slot_at(data, phys(st.head as int, k))) is None,
    ensures
        needs_rebuild(data, st),
        sorted_by_seq(recovered(data)),
        recovered(data).to_multiset() == physical_records(data, 300).to_multiset(),
{
    lemma_sort_sorted(physical_records(data, 300));
}

} // verus!
