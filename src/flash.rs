//! The header at the front of a raw flash partition, and the size and bounds rules
//! of the partition adaptor.
use crate::calculate::{quick_align, round_up};
use vstd::bytes::{spec_u32_from_le_bytes, spec_u32_to_le_bytes, u32_from_le_bytes, u32_to_le_bytes};
use vstd::prelude::*;
use vstd::slice::slice_subrange;

verus! {

/// Length of the header magic.
pub const FLASH_MAGIC_LEN: usize = 12;

/// Length of the encoded header: magic, then size and sector size as 32-bit words.
pub const FLASH_HEADER_SIZE: usize = 20;

/// The header magic, "CUSTOM_FLASH".
pub open spec fn flash_magic() -> Seq<u8> {
    seq![0x43u8, 0x55, 0x53, 0x54, 0x4F, 0x4D, 0x5F, 0x46, 0x4C, 0x41, 0x53, 0x48]
}

/// Errors of the flash partition adaptor.
#[derive(Debug, Clone, Copy, PartialEq, Eq, Structural)]
pub enum FlashError {
    /// A size is not a multiple of the sector size: size, sector size.
    NotAligned(usize, usize),
    /// An access beyond the partition: offset, length, partition size.
    OutOfBounds(usize, usize, usize),
    /// The header magic does not match.
    InvalidHeaderMagic,
    /// The partition could not be found or read through its handle.
    PointerCastFailed(usize),
    /// Any other failure, with its code.
    Unknown(i32),
}

/// The number of bytes in the header magic.
pub fn count_magic_bytes() -> (r: usize)
    ensures
        r == FLASH_MAGIC_LEN,
        r == flash_magic().len(),
{
    FLASH_MAGIC_LEN
}

/// The header magic, "CUSTOM_FLASH".
pub fn magic_as_bytes() -> (r: [u8; FLASH_MAGIC_LEN])
    ensures
        r@ == flash_magic(),
{
    let r = [0x43u8, 0x55, 0x53, 0x54, 0x4F, 0x4D, 0x5F, 0x46, 0x4C, 0x41, 0x53, 0x48];
    assert(r@ =~= flash_magic());
    r
}

/// The header of a raw partition: magic, declared size and declared sector size.
pub struct FlashHEADER {
    magic: [u8; FLASH_MAGIC_LEN],
    size: usize,
    sector_size: usize,
}

impl FlashHEADER {
    /// The magic held by the header.
    pub closed spec fn magic_bytes(&self) -> Seq<u8> {
        self.magic@
    }

    /// The declared size.
    pub closed spec fn size_spec(&self) -> usize {
        self.size
    }

    /// The declared sector size.
    pub closed spec fn sector_size_spec(&self) -> usize {
        self.sector_size
    }

    /// A valid header declaring `size` and `sector_size`.
    pub fn new(size: usize, sector_size: usize) -> (r: Self)
        ensures
            r.magic_bytes() == flash_magic(),
            r.size_spec() == size,
            r.sector_size_spec() == sector_size,
    {
        FlashHEADER { magic: magic_as_bytes(), size, sector_size }
    }

    /// Whether the header carries the expected magic.
    pub fn is_valid(&self) -> (r: bool)
        ensures
            r == (self.magic_bytes() == flash_magic()),
    {
        let expected = magic_as_bytes();
        let mut i: usize = 0;
        while i < FLASH_MAGIC_LEN
            invariant
                i <= FLASH_MAGIC_LEN,
                expected@ == flash_magic(),
                forall|j: int| 0 <= j < i ==> self.magic@[j] == expected@[j],
            decreases FLASH_MAGIC_LEN - i,
        {
            if self.magic[i] != expected[i] {
                return false;
            }
            i += 1;
        }
        assert(self.magic@ =~= flash_magic());
        true
    }

    /// The declared size.
    pub fn get_size(&self) -> (r: usize)
        ensures
            r == self.size_spec(),
    {
        self.size
    }

    /// The declared sector size.
    pub fn get_sector_size(&self) -> (r: usize)
        ensures
            r == self.sector_size_spec(),
    {
        self.sector_size
    }

    /// Reads a header from the front of a partition: the magic, then the size and
    /// the sector size as little-endian 32-bit words. `None` for a short buffer.
    pub fn from_bytes(bytes: &[u8]) -> (r: Option<Self>)
        ensures
            bytes@.len() < FLASH_HEADER_SIZE ==> r is None,
            bytes@.len() >= FLASH_HEADER_SIZE ==> (r matches Some(h) && {
                &&& h.magic_bytes() == bytes@.subrange(0, 12)
                &&& h.size_spec() == spec_u32_from_le_bytes(bytes@.subrange(12, 16))
                &&& h.sector_size_spec() == spec_u32_from_le_bytes(bytes@.subrange(16, 20))
            }),
    {
        if bytes.len() < FLASH_HEADER_SIZE {
            return None;
        }
        let magic = [
            bytes[0],
            bytes[1],
            bytes[2],
            bytes[3],
            bytes[4],
            bytes[5],
            bytes[6],
            bytes[7],
            bytes[8],
            bytes[9],
            bytes[10],
            bytes[11],
        ];
        assert(magic@ =~= bytes@.subrange(0, 12));
        let size = u32_from_le_bytes(slice_subrange(bytes, 12, 16));
        let sector_size = u32_from_le_bytes(slice_subrange(bytes, 16, 20));
        Some(FlashHEADER { magic, size: size as usize, sector_size: sector_size as usize })
    }

    /// Encodes the header as `from_bytes` reads it; `None` where a size does not fit
    /// in 32 bits.
    pub fn to_bytes(&self) -> (r: Option<Vec<u8>>)
        ensures
            (self.size_spec() > u32::MAX || self.sector_size_spec() > u32::MAX) ==> r is None,
            (self.size_spec() <= u32::MAX && self.sector_size_spec() <= u32::MAX) ==> (r matches Some(v)
                && v@ == self.magic_bytes() + spec_u32_to_le_bytes(self.size_spec() as u32)
                + spec_u32_to_le_bytes(self.sector_size_spec() as u32)),
    {
        if self.size > u32::MAX as usize || self.sector_size > u32::MAX as usize {
            return None;
        }
        let mut out: Vec<u8> = Vec::new();
        let mut i: usize = 0;
        while i < FLASH_MAGIC_LEN
            invariant
                i <= FLASH_MAGIC_LEN,
                out@ == self.magic@.take(i as int),
            decreases FLASH_MAGIC_LEN - i,
        {
            out.push(self.magic[i]);
            i += 1;
            assert(out@ =~= self.magic@.take(i as int));
        }
        assert(self.magic@.take(12) =~= self.magic@);
        let mut size = u32_to_le_bytes(self.size as u32);
        let mut sector = u32_to_le_bytes(self.sector_size as u32);
        out.append(&mut size);
        out.append(&mut sector);
        Some(out)
    }
}

/// What opening a partition does: rebuild it at an aligned size, or keep the size
/// that its valid header declares.
#[derive(Debug, Clone, Copy, PartialEq, Eq, Structural)]
pub enum OpenPlan {
    Reset(usize),
    Keep(usize),
}

/// Decides how to open a partition of sector size `sector_size` when `size` bytes of
/// data are asked for: a zero size is refused; an invalid header, or a requested
/// reset, rebuilds it with room for a header sector, rounded up to whole sectors;
/// otherwise the declared size stands.
pub fn plan_open(header: &FlashHEADER, size: usize, sector_size: usize, reset: bool) -> (r: Result<
    OpenPlan,
    FlashError,
>)
    requires
        size as int + 2 * sector_size as int <= usize::MAX,
    ensures
        size == 0 ==> r == Err::<OpenPlan, FlashError>(FlashError::Unknown(-1i32)),
        size > 0 && (header.magic_bytes() != flash_magic() || reset) ==> r == Ok::<
            OpenPlan,
            FlashError,
        >(OpenPlan::Reset(round_up(size + sector_size, sector_size as int) as usize)),
        size > 0 && header.magic_bytes() == flash_magic() && !reset ==> r == Ok::<
            OpenPlan,
            FlashError,
        >(OpenPlan::Keep(header.size_spec())),
{
    if size == 0 {
        return Err(FlashError::Unknown(-1));
    }
    let valid = header.is_valid();
    if !valid || reset {
        let aligned = quick_align(size + sector_size, sector_size);
        return Ok(OpenPlan::Reset(aligned));
    }
    Ok(OpenPlan::Keep(header.get_size()))
}

/// Checks that a partition can be rebuilt at `size` bytes with sectors of
/// `sector_size` bytes.
pub fn check_reset(size: usize, sector_size: usize) -> (r: Result<(), FlashError>)
    ensures
        size == 0 ==> r == Err::<(), FlashError>(FlashError::Unknown(-1i32)),
        size > 0 && (sector_size == 0 || size % sector_size != 0) ==> r == Err::<(), FlashError>(
            FlashError::NotAligned(size, sector_size),
        ),
        size > 0 && sector_size > 0 && size % sector_size == 0 ==> r is Ok,
{
    if size == 0 {
        return Err(FlashError::Unknown(-1));
    }
    if sector_size == 0 || size % sector_size != 0 {
        return Err(FlashError::NotAligned(size, sector_size));
    }
    Ok(())
}

/// Checks an access of `len` bytes at data offset `offset` in a partition of `size`
/// bytes whose first sector holds the header, and gives the physical offset.
pub fn check_access(offset: usize, len: usize, size: usize, sector_size: usize) -> (r: Result<
    usize,
    FlashError,
>)
    ensures
        sector_size + offset + len > size ==> r == Err::<usize, FlashError>(
            FlashError::OutOfBounds(offset, len, size),
        ),
        sector_size + offset + len <= size ==> r == Ok::<usize, FlashError>(
            (offset + sector_size) as usize,
        ),
{
    if offset > size || len > size || sector_size > size || sector_size > size - offset
        || len > size - offset - sector_size {
        return Err(FlashError::OutOfBounds(offset, len, size));
    }
    Ok(offset + sector_size)
}

/// The data capacity of a partition: its size less the header sector.
pub fn flash_capacity(size: usize, sector_size: usize) -> (r: usize)
    requires
        sector_size <= size,
    ensures
        r == size - sector_size,
{
    size - sector_size
}

} // verus!
