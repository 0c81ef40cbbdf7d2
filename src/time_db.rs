//! Sizing rules of the time-series database kept on the raw flash partition.
use crate::calculate::{quick_align, round_up};
use crate::flash::{flash_magic, FlashHEADER};
use vstd::prelude::*;

verus! {

/// Erase granularity that the database size is rounded to.
pub const DB_SECTOR_SIZE: usize = 4096;

/// The stored size of one entry: the payload rounded down to a multiple of four, plus
/// four bytes.
pub fn slot_size_for(payload: usize) -> (r: usize)
    requires
        payload <= usize::MAX - 4,
    ensures
        r == payload - payload % 4 + 4,
        r % 4 == 0,
        r > payload,
{
    payload - payload % 4 + 4
}

/// The partition size for `max_len` entries of `slot_size` bytes: a fifth more than
/// their total, rounded up to whole sectors.
pub fn database_size(max_len: u32, slot_size: u32) -> (r: usize)
    requires
        max_len as int * slot_size as int * 6 <= u32::MAX,
    ensures
        r == round_up((max_len as int * slot_size as int * 6) / 5, DB_SECTOR_SIZE as int),
{
    let total: u32 = max_len * slot_size * 6 / 5;
    quick_align(total as usize, DB_SECTOR_SIZE)
}

/// Whether the partition must be rebuilt: its header is missing or invalid, or the data
/// size it declares (its size less the header sector) is not `max_size`.
pub fn size_mismatch(header: Option<&FlashHEADER>, max_size: usize) -> (r: bool)
    ensures
        header is None ==> r,
        header matches Some(h) ==> r == (h.magic_bytes() != flash_magic()
            || h.sector_size_spec() > h.size_spec() || h.size_spec() - h.sector_size_spec()
            != max_size),
{
    match header {
        None => true,
        Some(h) => {
            if !h.is_valid() {
                return true;
            }
            let size = h.get_size();
            let sector = h.get_sector_size();
            sector > size || size - sector != max_size
        },
    }
}

} // verus!
