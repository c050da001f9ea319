//! Sector-addressed view of the system disk.
use vstd::prelude::*;

use crate::storage::StorageError;

verus! {

pub const SECTOR_SIZE: usize = 512;

/// The disk contents the storage stack reads from, sector after sector.
pub struct BlockDevice {
    image: Vec<u8>,
}

impl BlockDevice {
    pub closed spec fn spec_image(&self) -> Seq<u8> {
        self.image@
    }

    /// Number of whole sectors on the disk.
    pub open spec fn sector_count(&self) -> int {
        self.spec_image().len() as int / SECTOR_SIZE as int
    }

    /// The bytes of sector `lba`.
    pub open spec fn sector(&self, lba: int) -> Seq<u8> {
        self.spec_image().subrange(lba * SECTOR_SIZE, lba * SECTOR_SIZE + SECTOR_SIZE)
    }

    /// A device serving the sectors of `image`.
    pub fn new(image: Vec<u8>) -> (r: Self)
        ensures
            r.spec_image() == image@,
    {
        BlockDevice { image }
    }

    /// Number of whole sectors on the disk.
    pub fn total_sectors(&self) -> (r: u64)
        ensures
            r == self.sector_count(),
    {
        (self.image.len() / SECTOR_SIZE) as u64
    }

    /// Copies sector `lba` into `buffer`; a sector past the end of the disk
    /// is reported as a task-file error, as the drive reports it.
    pub fn read_sector(&self, lba: u64, buffer: &mut [u8]) -> (r: Result<(), StorageError>)
        requires
            old(buffer)@.len() == SECTOR_SIZE,
        ensures
            final(buffer)@.len() == SECTOR_SIZE,
            lba < self.sector_count() ==> r is Ok && final(buffer)@ == self.sector(lba as int),
            lba >= self.sector_count() ==> r == Err::<(), StorageError>(StorageError::AhciTaskFileError)
                && final(buffer)@ == old(buffer)@,
    {
        let count = (self.image.len() / SECTOR_SIZE) as u64;
        if lba >= count {
            return Err(StorageError::AhciTaskFileError);
        }
        proof {
            assert((lba as int) * 512 + 512 <= (self.image@.len() as int / 512) * 512) by (nonlinear_arith)
                requires
                    lba < self.image@.len() as int / 512,
            ;
            assert((self.image@.len() as int / 512) * 512 <= self.image@.len()) by (nonlinear_arith);
        }
        let start = (lba as usize) * SECTOR_SIZE;
        let mut index: usize = 0;
        while index < SECTOR_SIZE
            invariant
                buffer@.len() == SECTOR_SIZE,
                start == lba * SECTOR_SIZE,
                start + SECTOR_SIZE <= self.image@.len(),
                index <= SECTOR_SIZE,
                forall|k: int| 0 <= k < index ==> #[trigger] buffer@[k] == self.image@[start + k],
            decreases SECTOR_SIZE - index,
        {
            buffer[index] = self.image[start + index];
            index += 1;
        }
        assert(buffer@ =~= self.sector(lba as int));
        Ok(())
    }
}

} // verus!
