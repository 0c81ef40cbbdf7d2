//! The ring-state descriptor, its 24-byte encoding, and the choice between the two
//! redundant copies.
use crate::crc::{crc16, crc16_ccitt};
use crate::ring::{phys, STORAGE_CAPACITY};
use vstd::bytes::{
    spec_u16_from_le_bytes, spec_u16_to_le_bytes, spec_u32_from_le_bytes, spec_u32_to_le_bytes,
    u16_from_le_bytes, u16_to_le_bytes, u32_from_le_bytes, u32_to_le_bytes,
};
use vstd::prelude::*;
use vstd::slice::slice_subrange;

verus! {

/// Marker in the first four bytes of a descriptor ("META").
pub const META_MAGIC: u32 = 0x4D455441;

/// Format version of the descriptor.
pub const META_VERSION: u16 = 1;

/// Length of one encoded descriptor.
pub const META_RECORD_SIZE: usize = 24;

/// Number of redundant descriptor copies.
pub const META_COPIES: usize = 2;

/// Head, tail, count, next sequence number and generation of the ring.
#[derive(Debug, Clone, Copy, PartialEq, Eq, Structural)]
pub struct StorageState {
    pub head: u16,
    pub tail: u16,
    pub count: u16,
    pub next_seq: u32,
    pub generation: u32,
}

impl StorageState {
    /// The ring invariant: indices in range, and the tail `count` slots after the head.
    pub open spec fn wf(&self) -> bool {
        &&& self.head < STORAGE_CAPACITY
        &&& self.count <= STORAGE_CAPACITY
        &&& self.tail == phys(self.head as int, self.count as int)
    }

    /// Indices in range: what a decoded descriptor guarantees.
    pub open spec fn in_range(&self) -> bool {
        &&& self.head < STORAGE_CAPACITY
        &&& self.tail < STORAGE_CAPACITY
        &&& self.count <= STORAGE_CAPACITY
    }

    /// The same state with the tail recomputed as `count` slots after the head.
    pub open spec fn with_ring_tail(&self) -> StorageState {
        StorageState { tail: phys(self.head as int, self.count as int) as u16, ..*self }
    }

    /// The empty ring.
    pub open spec fn empty() -> StorageState {
        StorageState { head: 0, tail: 0, count: 0, next_seq: 0, generation: 0 }
    }

    /// The empty ring, as a value.
    pub fn new_empty() -> (r: Self)
        ensures
            r == Self::empty(),
            r.wf(),
    {
        StorageState { head: 0, tail: 0, count: 0, next_seq: 0, generation: 0 }
    }
}

/// The 22 bytes that the CRC of a descriptor covers.
pub open spec fn meta_body(s: StorageState) -> Seq<u8> {
    spec_u32_to_le_bytes(META_MAGIC) + spec_u16_to_le_bytes(META_VERSION) + spec_u16_to_le_bytes(
        0,
    ) + spec_u32_to_le_bytes(s.generation) + spec_u16_to_le_bytes(s.head) + spec_u16_to_le_bytes(
        s.tail,
    ) + spec_u16_to_le_bytes(s.count) + spec_u32_to_le_bytes(s.next_seq)
}

/// The 24 bytes of a descriptor.
pub open spec fn meta_image(s: StorageState) -> Seq<u8> {
    meta_body(s) + spec_u16_to_le_bytes(crc16(meta_body(s)))
}

/// The fields that a 24-byte buffer holds, checks aside.
pub open spec fn meta_fields(b: Seq<u8>) -> StorageState {
    StorageState {
        generation: spec_u32_from_le_bytes(b.subrange(8, 12)),
        head: spec_u16_from_le_bytes(b.subrange(12, 14)),
        tail: spec_u16_from_le_bytes(b.subrange(14, 16)),
        count: spec_u16_from_le_bytes(b.subrange(16, 18)),
        next_seq: spec_u32_from_le_bytes(b.subrange(18, 22)),
    }
}

/// What a buffer decodes to: `None` on a wrong length, magic, version or CRC, and on
/// a head or tail beyond the ring or a count above its capacity.
pub open spec fn meta_decode_spec(b: Seq<u8>) -> Option<StorageState> {
    if b.len() != META_RECORD_SIZE {
        None
    } else if spec_u32_from_le_bytes(b.subrange(0, 4)) != META_MAGIC {
        None
    } else if spec_u16_from_le_bytes(b.subrange(4, 6)) != META_VERSION {
        None
    } else if spec_u16_from_le_bytes(b.subrange(22, 24)) != crc16(b.subrange(0, 22)) {
        None
    } else if !meta_fields(b).in_range() {
        None
    } else {
        Some(meta_fields(b))
    }
}

/// The descriptor read from two copies: the valid one with the larger generation
/// (the first on a tie), the only valid one, or `None`.
pub open spec fn meta_select(a: Seq<u8>, b: Seq<u8>) -> Option<StorageState> {
    match (meta_decode_spec(a), meta_decode_spec(b)) {
        (Some(x), Some(y)) => if y.generation > x.generation {
            Some(y)
        } else {
            Some(x)
        },
        (Some(x), None) => Some(x),
        (None, Some(y)) => Some(y),
        (None, None) => None,
    }
}

/// Decoding the encoding of a descriptor with indices in range gives it back.
pub proof fn lemma_meta_round_trip(s: StorageState)
    requires
        s.in_range(),
    ensures
        meta_image(s).len() == META_RECORD_SIZE,
        meta_decode_spec(meta_image(s)) == Some(s),
{
    vstd::bytes::lemma_auto_spec_u16_to_from_le_bytes();
    vstd::bytes::lemma_auto_spec_u32_to_from_le_bytes();
    let body = meta_body(s);
    let b = meta_image(s);
    assert(b.subrange(0, 4) =~= spec_u32_to_le_bytes(META_MAGIC));
    assert(b.subrange(4, 6) =~= spec_u16_to_le_bytes(META_VERSION));
    assert(b.subrange(0, 22) =~= body);
    assert(b.subrange(22, 24) =~= spec_u16_to_le_bytes(crc16(body)));
    assert(b.subrange(8, 12) =~= spec_u32_to_le_bytes(s.generation));
    assert(b.subrange(12, 14) =~= spec_u16_to_le_bytes(s.head));
    assert(b.subrange(14, 16) =~= spec_u16_to_le_bytes(s.tail));
    assert(b.subrange(16, 18) =~= spec_u16_to_le_bytes(s.count));
    assert(b.subrange(18, 22) =~= spec_u32_to_le_bytes(s.next_seq));
}

/// Of two valid copies with different generations, the one with the larger
/// generation is chosen, whichever copy it is.
pub proof fn lemma_select_newer_generation(a: Seq<u8>, b: Seq<u8>)
    requires
        meta_decode_spec(a) is Some,
        meta_decode_spec(b) is Some,
        meta_decode_spec(a)->0.generation != meta_decode_spec(b)->0.generation,
    ensures
        meta_select(a, b) == meta_select(b, a),
        meta_select(a, b) == (if meta_decode_spec(a)->0.generation > meta_decode_spec(
            b,
        )->0.generation {
            meta_decode_spec(a)
        } else {
            meta_decode_spec(b)
        }),
{
}

impl StorageState {
    /// Encodes the descriptor into its 24-byte form.
    pub fn to_bytes(&self) -> (r: Vec<u8>)
        ensures
            r@ == meta_image(*self),
    {
        proof {
            vstd::bytes::lemma_auto_spec_u16_to_from_le_bytes();
            vstd::bytes::lemma_auto_spec_u32_to_from_le_bytes();
        }
        let mut buf: Vec<u8> = u32_to_le_bytes(META_MAGIC);
        let mut part = u16_to_le_bytes(META_VERSION);
        buf.append(&mut part);
        let mut part = u16_to_le_bytes(0);
        buf.append(&mut part);
        let mut part = u32_to_le_bytes(self.generation);
        buf.append(&mut part);
        let mut part = u16_to_le_bytes(self.head);
        buf.append(&mut part);
        let mut part = u16_to_le_bytes(self.tail);
        buf.append(&mut part);
        let mut part = u16_to_le_bytes(self.count);
        buf.append(&mut part);
        let mut part = u32_to_le_bytes(self.next_seq);
        buf.append(&mut part);
        assert(buf@ =~= meta_body(*self));
        let crc = crc16_ccitt(buf.as_slice());
        let mut part = u16_to_le_bytes(crc);
        buf.append(&mut part);
        buf
    }

    /// Decodes a descriptor; `None` on a wrong length, magic, version or CRC, and on a
    /// head or tail beyond the ring or a count above its capacity.
    pub fn from_bytes(bytes: &[u8]) -> (r: Option<Self>)
        ensures
            r == meta_decode_spec(bytes@),
            r matches Some(s) ==> s.in_range(),
    {
        if bytes.len() != META_RECORD_SIZE {
            return None;
        }
        let magic = u32_from_le_bytes(slice_subrange(bytes, 0, 4));
        let version = u16_from_le_bytes(slice_subrange(bytes, 4, 6));
        if magic != META_MAGIC || version != META_VERSION {
            return None;
        }
        let crc_expected = u16_from_le_bytes(slice_subrange(bytes, 22, 24));
        let crc_actual = crc16_ccitt(slice_subrange(bytes, 0, 22));
        if crc_expected != crc_actual {
            return None;
        }
        let generation = u32_from_le_bytes(slice_subrange(bytes, 8, 12));
        let head = u16_from_le_bytes(slice_subrange(bytes, 12, 14));
        let tail = u16_from_le_bytes(slice_subrange(bytes, 14, 16));
        let count = u16_from_le_bytes(slice_subrange(bytes, 16, 18));
        let next_seq = u32_from_le_bytes(slice_subrange(bytes, 18, 22));
        if head >= STORAGE_CAPACITY || tail >= STORAGE_CAPACITY || count > STORAGE_CAPACITY {
            return None;
        }
        Some(StorageState { head, tail, count, next_seq, generation })
    }

    /// Reads the descriptor from its two copies: the valid one with the larger
    /// generation, the only valid one, or `None` where neither is valid.
    pub fn load(copy_0: &[u8], copy_1: &[u8]) -> (r: Option<Self>)
        ensures
            r == meta_select(copy_0@, copy_1@),
            r matches Some(s) ==> s.in_range(),
    {
        let first = Self::from_bytes(copy_0);
        let second = Self::from_bytes(copy_1);
        match (first, second) {
            (Some(x), Some(y)) => if y.generation > x.generation {
                Some(y)
            } else {
                Some(x)
            },
            (Some(x), None) => Some(x),
            (None, Some(y)) => Some(y),
            (None, None) => None,
        }
    }
}

} // verus!
