//! Index arithmetic over the fixed circular slot space.
use vstd::prelude::*;

verus! {

/// Number of record slots in the ring.
pub const STORAGE_CAPACITY: u16 = 300;

/// The physical slot that lies `i` steps after `head`, for `head < STORAGE_CAPACITY`
/// and `i <= STORAGE_CAPACITY`.
pub open spec fn phys(head: int, i: int) -> int {
    if head + i < STORAGE_CAPACITY {
        head + i
    } else {
        head + i - STORAGE_CAPACITY
    }
}

/// Moves `index` forward by `steps` slots around the ring.
pub fn advance(index: u16, steps: u16) -> (r: u16)
    ensures
        index < STORAGE_CAPACITY && steps <= STORAGE_CAPACITY ==> r == phys(
            index as int,
            steps as int,
        ),
        r < STORAGE_CAPACITY,
        r as int == (index as int + steps as int) % (STORAGE_CAPACITY as int),
{
    ((index as u32 + steps as u32) % (STORAGE_CAPACITY as u32)) as u16
}

} // verus!
