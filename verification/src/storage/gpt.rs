//! GUID partition table discovery.
use vstd::prelude::*;
use vstd::string::StringSliceAdditionalSpecFns;

use crate::storage::block::{BlockDevice, SECTOR_SIZE};
use crate::storage::StorageError;
use crate::util::{le_u16_from_bytes, le_u32_from_bytes, le_u64_from_bytes, spec_le_u16, spec_le_u32, spec_le_u64};

verus! {

pub const GPT_HEADER_LBA: u64 = 1;
pub const MAX_GPT_PARTITIONS: usize = 16;
pub const GPT_NAME_UNITS: usize = 36;
/// Type GUID of an EFI system partition, in on-disk byte order.
pub const EFI_SYSTEM_PARTITION_GUID: [u8; 16] = [
    0x28, 0x73, 0x2a, 0xc1, 0x1f, 0xf8, 0xd2, 0x11, 0xba, 0x4b, 0x00, 0xa0, 0xc9, 0x3e, 0xc9, 0x3b,
];

/// "EFI PART", the header signature.
pub open spec fn gpt_signature() -> Seq<u8> {
    seq![0x45u8, 0x46, 0x49, 0x20, 0x50, 0x41, 0x52, 0x54]
}

/// One partition entry.
#[derive(Clone, Copy)]
pub struct GptPartition {
    pub type_guid: [u8; 16],
    pub start_lba: u64,
    pub sector_count: u64,
    pub name: [u16; 36],
}

/// The UTF-16 name units of a partition entry (offset 56).
pub open spec fn spec_partition_name(entry: Seq<u8>) -> Seq<u16> {
    Seq::new(36, |i: int| spec_le_u16(entry.subrange(56 + 2 * i, 58 + 2 * i)) as u16)
}

/// Whether a UTF-16 partition name is exactly `name` (byte for unit)
/// followed by zero units.
pub open spec fn name_is(units: Seq<u16>, name: Seq<u8>) -> bool {
    &&& name.len() <= units.len()
    &&& forall|i: int| 0 <= i < name.len() ==> #[trigger] units[i] == name[i] as u16
    &&& forall|i: int| name.len() <= i < units.len() ==> #[trigger] units[i] == 0
}

impl GptPartition {
    pub open spec fn spec_type_guid(&self) -> Seq<u8> {
        self.type_guid@
    }

    pub open spec fn spec_name(&self) -> Seq<u16> {
        self.name@
    }

    /// A partition record.
    pub fn new(type_guid: [u8; 16], start_lba: u64, sector_count: u64, name: [u16; 36]) -> (r: Self)
        ensures
            r.spec_type_guid() == type_guid@,
            r.start_lba == start_lba,
            r.sector_count == sector_count,
            r.spec_name() == name@,
    {
        GptPartition { type_guid, start_lba, sector_count, name }
    }

    /// Whether the partition is named exactly `name`, each byte of which is
    /// compared with one UTF-16 unit, and the rest of the name is zero.
    pub fn name_matches(&self, name: &str) -> (r: bool)
        ensures
            r == name_is(self.spec_name(), name.spec_bytes()),
    {
        let bytes = name.as_bytes();
        if bytes.len() > GPT_NAME_UNITS {
            return false;
        }
        let mut index: usize = 0;
        while index < bytes.len()
            invariant
                bytes@ == name.spec_bytes(),
                bytes@.len() <= GPT_NAME_UNITS,
                self.name@.len() == GPT_NAME_UNITS,
                index <= bytes@.len(),
                forall|i: int| 0 <= i < index ==> #[trigger] self.name@[i] == bytes@[i] as u16,
            decreases bytes@.len() - index,
        {
            if self.name[index] != bytes[index] as u16 {
                return false;
            }
            index += 1;
        }
        while index < GPT_NAME_UNITS
            invariant
                bytes@ == name.spec_bytes(),
                bytes@.len() <= index <= GPT_NAME_UNITS,
                self.name@.len() == GPT_NAME_UNITS,
                forall|i: int| 0 <= i < bytes@.len() ==> #[trigger] self.name@[i] == bytes@[i] as u16,
                forall|i: int| bytes@.len() <= i < index ==> #[trigger] self.name@[i] == 0,
            decreases GPT_NAME_UNITS - index,
        {
            if self.name[index] != 0 {
                return false;
            }
            index += 1;
        }
        true
    }

    /// Whether the partition has type `type_guid`.
    pub fn has_type(&self, type_guid: &[u8; 16]) -> (r: bool)
        ensures
            r == (self.spec_type_guid() == type_guid@),
    {
        let mut index: usize = 0;
        while index < 16
            invariant
                self.type_guid@.len() == 16,
                type_guid@.len() == 16,
                index <= 16,
                forall|i: int| 0 <= i < index ==> #[trigger] self.type_guid@[i] == type_guid@[i],
            decreases 16 - index,
        {
            if self.type_guid[index] != type_guid[index] {
                return false;
            }
            index += 1;
        }
        assert(self.type_guid@ =~= type_guid@);
        true
    }
}

/// Reads the 36 UTF-16 name units of a partition entry.
pub fn read_partition_name(entry: &[u8]) -> (r: [u16; 36])
    requires
        entry@.len() >= 128,
    ensures
        r@ == spec_partition_name(entry@),
{
    let mut name = [0u16; 36];
    let mut index: usize = 0;
    while index < GPT_NAME_UNITS
        invariant
            entry@.len() >= 128,
            name@.len() == GPT_NAME_UNITS,
            index <= GPT_NAME_UNITS,
            forall|i: int| 0 <= i < index ==> #[trigger] name@[i] == spec_partition_name(entry@)[i],
        decreases GPT_NAME_UNITS - index,
    {
        let unit = le_u16_from_bytes(entry, 56 + index * 2);
        name[index] = unit;
        index += 1;
    }
    assert(name@ =~= spec_partition_name(entry@));
    name
}

/// Whether a 128-byte partition entry is in use: its type GUID is not all
/// zero.
pub open spec fn entry_used(entry: Seq<u8>) -> bool {
    exists|j: int| 0 <= j < 16 && #[trigger] entry[j] != 0
}

/// First and last LBA of a partition entry.
pub open spec fn entry_first_lba(entry: Seq<u8>) -> int {
    spec_le_u64(entry.subrange(32, 40)) as int
}

pub open spec fn entry_last_lba(entry: Seq<u8>) -> int {
    spec_le_u64(entry.subrange(40, 48)) as int
}

/// An entry's range is usable: it does not end before it starts, and its
/// sector count fits in 64 bits.
pub open spec fn entry_range_ok(entry: Seq<u8>) -> bool {
    entry_first_lba(entry) <= entry_last_lba(entry) && entry_last_lba(entry) - entry_first_lba(entry) != u64::MAX
}

/// `p` is the partition that `entry` describes.
pub open spec fn partition_from_entry(p: GptPartition, entry: Seq<u8>) -> bool {
    &&& p.spec_type_guid() == entry.take(16)
    &&& p.start_lba == entry_first_lba(entry)
    &&& p.sector_count == entry_last_lba(entry) - entry_first_lba(entry) + 1
    &&& p.spec_name() == spec_partition_name(entry)
}

/// The used entries of one table sector from byte `offset` on, after the
/// entries `found`, until sixteen are found; or why the table is refused.
pub open spec fn scan_entries(sector: Seq<u8>, entry_size: int, offset: int, found: Seq<Seq<u8>>)
    -> Result<Seq<Seq<u8>>, StorageError>
    decreases SECTOR_SIZE - offset,
{
    if entry_size < 128 || offset < 0 || offset + entry_size > SECTOR_SIZE || found.len() >= MAX_GPT_PARTITIONS {
        Ok(found)
    } else {
        let entry = sector.subrange(offset, offset + 128);
        if !entry_used(entry) {
            scan_entries(sector, entry_size, offset + entry_size, found)
        } else if !entry_range_ok(entry) {
            Err(StorageError::InvalidPartitionTable)
        } else {
            scan_entries(sector, entry_size, offset + entry_size, found.push(entry))
        }
    }
}

/// The used entries of table sectors `index..table_sectors`, the table
/// starting at `entry_lba`, after the entries `found`.
pub open spec fn scan_table(device: BlockDevice, entry_lba: int, entry_size: int, table_sectors: int, index: int,
    found: Seq<Seq<u8>>) -> Result<Seq<Seq<u8>>, StorageError>
    decreases table_sectors - index,
{
    if index >= table_sectors {
        Ok(found)
    } else {
        let lba = entry_lba + index;
        if lba > u64::MAX || lba >= device.sector_count() {
            Err(StorageError::AhciTaskFileError)
        } else {
            match scan_entries(device.sector(lba), entry_size, 0, found) {
                Ok(more) => scan_table(device, entry_lba, entry_size, table_sectors, index + 1, more),
                Err(error) => Err(error),
            }
        }
    }
}

/// The used partition entries (at most sixteen, in table order) that the
/// GPT header at LBA 1 of `device` points to, or why they cannot be read.
pub open spec fn gpt_entries(device: BlockDevice) -> Result<Seq<Seq<u8>>, StorageError> {
    if GPT_HEADER_LBA >= device.sector_count() {
        Err(StorageError::AhciTaskFileError)
    } else {
        let header = device.sector(GPT_HEADER_LBA as int);
        let entry_size = spec_le_u32(header.subrange(84, 88)) as int;
        let entry_count = spec_le_u32(header.subrange(80, 84)) as int;
        let table_bytes = entry_count * entry_size;
        let table_sectors = if table_bytes % 512 == 0 { table_bytes / 512 } else { table_bytes / 512 + 1 };
        if header.take(8) != gpt_signature() {
            Err(StorageError::InvalidGptHeader)
        } else if entry_size < 128 {
            Err(StorageError::InvalidPartitionTable)
        } else {
            scan_table(device, spec_le_u64(header.subrange(72, 80)) as int, entry_size, table_sectors, 0, Seq::empty())
        }
    }
}

/// The partitions listed on a disk, in table order.
pub struct GptPartitions {
    partitions: Vec<GptPartition>,
}

impl GptPartitions {
    pub closed spec fn spec_partitions(&self) -> Seq<GptPartition> {
        self.partitions@
    }

    /// Index of the first partition with type `type_guid`.
    pub open spec fn first_with_type(&self, type_guid: Seq<u8>) -> Option<int> {
        if exists|i: int| 0 <= i < self.spec_partitions().len() && #[trigger] self.spec_partitions()[i].spec_type_guid() == type_guid {
            Some(choose|i: int| 0 <= i < self.spec_partitions().len() && #[trigger] self.spec_partitions()[i].spec_type_guid() == type_guid
                && forall|j: int| 0 <= j < i ==> self.spec_partitions()[j].spec_type_guid() != type_guid)
        } else {
            None
        }
    }

    /// Index of the first partition named `name`.
    pub open spec fn first_named(&self, name: Seq<u8>) -> Option<int> {
        if exists|i: int| 0 <= i < self.spec_partitions().len() && name_is(#[trigger] self.spec_partitions()[i].spec_name(), name) {
            Some(choose|i: int| 0 <= i < self.spec_partitions().len() && name_is(#[trigger] self.spec_partitions()[i].spec_name(), name)
                && forall|j: int| 0 <= j < i ==> !name_is(self.spec_partitions()[j].spec_name(), name))
        } else {
            None
        }
    }

    /// Reads the GPT header at LBA 1 and collects the used entries (at most
    /// sixteen) of the partition table it points to.
    pub fn read(device: &BlockDevice) -> (r: Result<Self, StorageError>)
        ensures
            match gpt_entries(*device) {
                Err(error) => r == Err::<Self, StorageError>(error),
                Ok(entries) => r is Ok && r.unwrap().spec_partitions().len() == entries.len()
                    && forall|i: int| 0 <= i < entries.len() ==>
                        #[trigger] partition_from_entry(r.unwrap().spec_partitions()[i], entries[i]),
            },
            GPT_HEADER_LBA >= device.sector_count() ==> r == Err::<Self, StorageError>(StorageError::AhciTaskFileError),
            GPT_HEADER_LBA < device.sector_count() ==> {
                let header = device.sector(GPT_HEADER_LBA as int);
                &&& header.take(8) != gpt_signature() ==> r == Err::<Self, StorageError>(StorageError::InvalidGptHeader)
                &&& header.take(8) == gpt_signature() && spec_le_u32(header.subrange(84, 88)) < 128
                    ==> r == Err::<Self, StorageError>(StorageError::InvalidPartitionTable)
            },
            r is Ok ==> r.unwrap().spec_partitions().len() <= MAX_GPT_PARTITIONS
                && forall|i: int| 0 <= i < r.unwrap().spec_partitions().len() ==>
                    #[trigger] r.unwrap().spec_partitions()[i].sector_count >= 1,
    {
        let ghost goal = gpt_entries(*device);
        let mut header = [0u8; SECTOR_SIZE];
        match device.read_sector(GPT_HEADER_LBA, &mut header) {
            Ok(()) => {},
            Err(error) => return Err(error),
        }
        let mut signature_ok = true;
        let signature: [u8; 8] = [0x45, 0x46, 0x49, 0x20, 0x50, 0x41, 0x52, 0x54];
        let mut index: usize = 0;
        while index < 8
            invariant
                header@.len() == SECTOR_SIZE,
                signature@ == gpt_signature(),
                index <= 8,
                signature_ok <==> forall|i: int| 0 <= i < index ==> #[trigger] header@[i] == signature@[i],
            decreases 8 - index,
        {
            if header[index] != signature[index] {
                signature_ok = false;
            }
            index += 1;
        }
        if !signature_ok {
            proof {
                let i = choose|i: int| 0 <= i < 8 && #[trigger] header@[i] != signature@[i];
                assert(header@.take(8)[i] != gpt_signature()[i]);
            }
            return Err(StorageError::InvalidGptHeader);
        }
        assert(header@.take(8) =~= gpt_signature());
        let entry_lba = le_u64_from_bytes(&header, 72);
        let entry_count = le_u32_from_bytes(&header, 80) as u64;
        let entry_size = le_u32_from_bytes(&header, 84) as u64;
        if entry_size < 128 {
            return Err(StorageError::InvalidPartitionTable);
        }
        assert(entry_count * entry_size <= 0xffff_ffff * 0xffff_ffff) by (nonlinear_arith)
            requires
                entry_count <= 0xffff_ffff,
                entry_size <= 0xffff_ffff,
        ;
        let table_bytes = entry_count * entry_size;
        let ghost header_facts = GPT_HEADER_LBA < device.sector_count()
            && device.sector(GPT_HEADER_LBA as int).take(8) == gpt_signature()
            && spec_le_u32(device.sector(GPT_HEADER_LBA as int).subrange(84, 88)) >= 128;
        assert(header_facts);
        let table_sectors = if table_bytes % 512 == 0 { table_bytes / 512 } else { table_bytes / 512 + 1 };
        assert(goal == scan_table(*device, entry_lba as int, entry_size as int, table_sectors as int, 0, Seq::empty()));
        let mut partitions: Vec<GptPartition> = Vec::new();
        let ghost mut entries: Seq<Seq<u8>> = Seq::empty();
        let mut sector = [0u8; SECTOR_SIZE];
        let mut sector_index: u64 = 0;
        while sector_index < table_sectors
            invariant
                goal == gpt_entries(*device),
                header_facts,
                header_facts == (GPT_HEADER_LBA < device.sector_count()
                    && device.sector(GPT_HEADER_LBA as int).take(8) == gpt_signature()
                    && spec_le_u32(device.sector(GPT_HEADER_LBA as int).subrange(84, 88)) >= 128),
                sector@.len() == SECTOR_SIZE,
                entry_size >= 128,
                entry_size <= 0xffff_ffff,
                sector_index <= table_sectors,
                goal == scan_table(*device, entry_lba as int, entry_size as int, table_sectors as int,
                    sector_index as int, entries),
                partitions@.len() == entries.len(),
                forall|i: int| 0 <= i < entries.len() ==> #[trigger] partition_from_entry(partitions@[i], entries[i]),
                partitions@.len() <= MAX_GPT_PARTITIONS,
                forall|i: int| 0 <= i < partitions@.len() ==> #[trigger] partitions@[i].sector_count >= 1,
            decreases table_sectors - sector_index,
        {
            let lba = match entry_lba.checked_add(sector_index) {
                Some(lba) => lba,
                None => {
                    assert(goal == Err::<Seq<Seq<u8>>, StorageError>(StorageError::AhciTaskFileError));
                    return Err(StorageError::AhciTaskFileError);
                },
            };
            match device.read_sector(lba, &mut sector) {
                Ok(()) => {},
                Err(error) => {
                    assert(goal == Err::<Seq<Seq<u8>>, StorageError>(StorageError::AhciTaskFileError));
                    return Err(error);
                },
            }
            let ghost entries_before = entries;
            let mut offset: u64 = 0;
            while offset + entry_size <= SECTOR_SIZE as u64 && partitions.len() < MAX_GPT_PARTITIONS
                invariant
                    goal == gpt_entries(*device),
                    header_facts,
                    header_facts == (GPT_HEADER_LBA < device.sector_count()
                        && device.sector(GPT_HEADER_LBA as int).take(8) == gpt_signature()
                        && spec_le_u32(device.sector(GPT_HEADER_LBA as int).subrange(84, 88)) >= 128),
                    sector@.len() == SECTOR_SIZE,
                    sector@ == device.sector(lba as int),
                    lba == entry_lba + sector_index,
                    lba < device.sector_count(),
                    sector_index < table_sectors,
                    entry_size >= 128,
                    entry_size <= 0xffff_ffff,
                    offset <= SECTOR_SIZE,
                    goal == scan_table(*device, entry_lba as int, entry_size as int, table_sectors as int,
                        sector_index as int, entries_before),
                    scan_entries(sector@, entry_size as int, 0, entries_before)
                        == scan_entries(sector@, entry_size as int, offset as int, entries),
                    partitions@.len() == entries.len(),
                    forall|i: int| 0 <= i < entries.len() ==> #[trigger] partition_from_entry(partitions@[i], entries[i]),
                    partitions@.len() <= MAX_GPT_PARTITIONS,
                    forall|i: int| 0 <= i < partitions@.len() ==> #[trigger] partitions@[i].sector_count >= 1,
                decreases SECTOR_SIZE - offset,
            {
                let at = offset as usize;
                let mut used = false;
                let mut k: usize = 0;
                while k < 16
                    invariant
                        sector@.len() == SECTOR_SIZE,
                        at + 128 <= SECTOR_SIZE,
                        k <= 16,
                        used <==> exists|j: int| 0 <= j < k && #[trigger] sector@[at + j] != 0,
                    decreases 16 - k,
                {
                    if sector[at + k] != 0 {
                        used = true;
                    }
                    k += 1;
                }
                let entry = vstd::slice::slice_subrange(sector.as_slice(), at, at + 128);
                proof {
                    assert(entry@ == sector@.subrange(at as int, at + 128));
                    if used {
                        let j = choose|j: int| 0 <= j < 16 && #[trigger] sector@[at + j] != 0;
                        assert(entry@[j] != 0);
                    } else {
                        assert forall|j: int| 0 <= j < 16 implies #[trigger] entry@[j] == 0 by {
                            assert(sector@[at + j] == 0);
                        }
                    }
                    assert(used == entry_used(entry@));
                }
                if used {
                    let start_lba = le_u64_from_bytes(entry, 32);
                    let end_lba = le_u64_from_bytes(entry, 40);
                    if end_lba < start_lba {
                        proof {
                            assert(!entry_range_ok(entry@));
                            assert(scan_entries(sector@, entry_size as int, offset as int, entries)
                                == Err::<Seq<Seq<u8>>, StorageError>(StorageError::InvalidPartitionTable));
                            assert(goal == Err::<Seq<Seq<u8>>, StorageError>(StorageError::InvalidPartitionTable));
                        }
                        return Err(StorageError::InvalidPartitionTable);
                    }
                    let mut type_guid = [0u8; 16];
                    let mut g: usize = 0;
                    while g < 16
                        invariant
                            entry@.len() == 128,
                            type_guid@.len() == 16,
                            g <= 16,
                            forall|j: int| 0 <= j < g ==> #[trigger] type_guid@[j] == entry@[j],
                        decreases 16 - g,
                    {
                        type_guid[g] = entry[g];
                        g += 1;
                    }
                    assert(type_guid@ =~= entry@.take(16));
                    if end_lba - start_lba == u64::MAX {
                        proof {
                            assert(!entry_range_ok(entry@));
                            assert(scan_entries(sector@, entry_size as int, offset as int, entries)
                                == Err::<Seq<Seq<u8>>, StorageError>(StorageError::InvalidPartitionTable));
                            assert(goal == Err::<Seq<Seq<u8>>, StorageError>(StorageError::InvalidPartitionTable));
                        }
                        return Err(StorageError::InvalidPartitionTable);
                    }
                    let name = read_partition_name(entry);
                    let partition = GptPartition {
                        type_guid,
                        start_lba,
                        sector_count: (end_lba - start_lba) + 1,
                        name,
                    };
                    assert(partition_from_entry(partition, entry@));
                    partitions.push(partition);
                    proof {
                        entries = entries.push(entry@);
                        assert forall|i: int| 0 <= i < entries.len() implies #[trigger] partition_from_entry(partitions@[i], entries[i]) by {
                            if i < entries.len() - 1 {
                                assert(partition_from_entry(partitions@[i], entries[i]));
                            }
                        }
                    }
                }
                offset = offset + entry_size;
            }
            proof {
                assert(scan_entries(sector@, entry_size as int, offset as int, entries)
                    == Ok::<Seq<Seq<u8>>, StorageError>(entries));
                assert(goal == scan_table(*device, entry_lba as int, entry_size as int, table_sectors as int,
                    sector_index + 1, entries));
            }
            sector_index += 1;
        }
        Ok(GptPartitions { partitions })
    }

    /// The first partition of type `type_guid`.
    pub fn find_by_type(&self, type_guid: [u8; 16]) -> (r: Option<GptPartition>)
        ensures
            match self.first_with_type(type_guid@) {
                Some(i) => r is Some && r.unwrap() == self.spec_partitions()[i],
                None => r is None,
            },
    {
        let mut index: usize = 0;
        while index < self.partitions.len()
            invariant
                index <= self.partitions@.len(),
                forall|j: int| 0 <= j < index ==> #[trigger] self.partitions@[j].spec_type_guid() != type_guid@,
            decreases self.partitions@.len() - index,
        {
            if self.partitions[index].has_type(&type_guid) {
                proof {
                    let p = self.spec_partitions();
                    let w = choose|i: int| 0 <= i < p.len() && #[trigger] p[i].spec_type_guid() == type_guid@
                        && forall|j: int| 0 <= j < i ==> p[j].spec_type_guid() != type_guid@;
                    if w < index {
                        assert(p[w].spec_type_guid() != type_guid@);
                    } else if w > index {
                        assert(p[index as int].spec_type_guid() != type_guid@);
                    }
                }
                return Some(self.partitions[index]);
            }
            index += 1;
        }
        None
    }

    /// The first partition named `name`.
    pub fn find_by_name(&self, name: &str) -> (r: Option<GptPartition>)
        ensures
            match self.first_named(name.spec_bytes()) {
                Some(i) => r is Some && r.unwrap() == self.spec_partitions()[i],
                None => r is None,
            },
    {
        let mut index: usize = 0;
        while index < self.partitions.len()
            invariant
                index <= self.partitions@.len(),
                forall|j: int| 0 <= j < index ==> !name_is(#[trigger] self.partitions@[j].spec_name(), name.spec_bytes()),
            decreases self.partitions@.len() - index,
        {
            if self.partitions[index].name_matches(name) {
                proof {
                    let p = self.spec_partitions();
                    let w = choose|i: int| 0 <= i < p.len() && name_is(#[trigger] p[i].spec_name(), name.spec_bytes())
                        && forall|j: int| 0 <= j < i ==> !name_is(p[j].spec_name(), name.spec_bytes());
                    if w < index {
                        assert(!name_is(p[w].spec_name(), name.spec_bytes()));
                    } else if w > index {
                        assert(!name_is(p[index as int].spec_name(), name.spec_bytes()));
                    }
                }
                return Some(self.partitions[index]);
            }
            index += 1;
        }
        None
    }
}

} // verus!
