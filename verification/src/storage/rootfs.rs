//! The runtime root filesystem: the FAT32 volume on the `LAZERS-SYSTEM`
//! partition of the system disk.
use vstd::prelude::*;
use vstd::string::StringSliceAdditionalSpecFns;

use crate::memory::types::MemoryError;
use crate::storage::block::BlockDevice;
use crate::storage::fat32::{spec_mount_range, Fat32, FatResolvedPath};
use crate::storage::gpt::{
    entry_first_lba, entry_last_lba, gpt_entries, name_is, partition_from_entry, spec_partition_name, GptPartitions,
    EFI_SYSTEM_PARTITION_GUID,
};
use crate::storage::StorageError;

verus! {

/// The mounted root filesystem and the disk it lives on.
pub struct RootFs {
    pub fs: Fat32,
    pub device: BlockDevice,
}

impl RootFs {
    /// What `path` names on the root filesystem.
    pub open spec fn spec_resolve(&self, path: Seq<u8>) -> Result<FatResolvedPath, StorageError> {
        self.fs.spec_resolve(&self.device, path)
    }

    /// Reads the regular file at `path` into `buffer`.
    pub fn read_file_into(&self, path: &str, buffer: &mut [u8]) -> (r: Result<usize, StorageError>)
        ensures
            match self.spec_resolve(path.spec_bytes()) {
                Err(error) => r == Err::<usize, StorageError>(error),
                Ok(FatResolvedPath::File(entry)) => if old(buffer)@.len() < entry.size {
                    r == Err::<usize, StorageError>(StorageError::BufferTooSmall)
                } else {
                    match self.fs.file_chain(&self.device, entry.first_cluster, entry.size as int, self.fs.partition_sector_count as int) {
                        Ok(bytes) => r == Ok::<usize, StorageError>(entry.size as usize) && final(buffer)@.take(entry.size as int) == bytes,
                        Err(error) => r == Err::<usize, StorageError>(error),
                    }
                },
                Ok(_) => r == Err::<usize, StorageError>(StorageError::NotAFile),
            },
    {
        let file = match self.fs.open_absolute(&self.device, path) {
            Ok(file) => file,
            Err(error) => return Err(error),
        };
        self.fs.read_file(&self.device, &file, buffer)
    }

    /// The contents of the regular file at `path`, or why it cannot be read
    /// whole into a buffer of its size.
    pub open spec fn spec_read_file(&self, path: Seq<u8>) -> Result<Seq<u8>, StorageError> {
        match self.spec_resolve(path) {
            Err(error) => Err(error),
            Ok(FatResolvedPath::File(entry)) => if entry.size == 0 {
                Err(StorageError::Memory(MemoryError::InvalidKernelBufferSize))
            } else {
                self.fs.file_chain(&self.device, entry.first_cluster, entry.size as int, self.fs.partition_sector_count as int)
            },
            Ok(_) => Err(StorageError::NotAFile),
        }
    }

    /// Reads the regular file at `path` into a buffer of its size. An empty
    /// file has no buffer and is refused as an invalid buffer size.
    pub fn read_file(&self, path: &str) -> (r: Result<Vec<u8>, StorageError>)
        ensures
            match self.spec_read_file(path.spec_bytes()) {
                Ok(bytes) => r is Ok && r.unwrap()@ == bytes,
                Err(error) => r == Err::<Vec<u8>, StorageError>(error),
            },
            match self.spec_resolve(path.spec_bytes()) {
                Err(error) => r == Err::<Vec<u8>, StorageError>(error),
                Ok(FatResolvedPath::File(entry)) => if entry.size == 0 {
                    r == Err::<Vec<u8>, StorageError>(StorageError::Memory(MemoryError::InvalidKernelBufferSize))
                } else {
                    match self.fs.file_chain(&self.device, entry.first_cluster, entry.size as int, self.fs.partition_sector_count as int) {
                        Ok(bytes) => r is Ok && r.unwrap()@ == bytes,
                        Err(error) => r == Err::<Vec<u8>, StorageError>(error),
                    }
                },
                Ok(_) => r == Err::<Vec<u8>, StorageError>(StorageError::NotAFile),
            },
    {
        let file = match self.fs.open_absolute(&self.device, path) {
            Ok(file) => file,
            Err(error) => return Err(error),
        };
        if file.size == 0 {
            return Err(StorageError::Memory(MemoryError::InvalidKernelBufferSize));
        }
        let size = file.size as usize;
        let mut buffer: Vec<u8> = Vec::new();
        while buffer.len() < size
            invariant
                buffer@.len() <= size,
            decreases size - buffer@.len(),
        {
            buffer.push(0);
        }
        match self.fs.read_file(&self.device, &file, buffer.as_mut_slice()) {
            Ok(_) => {},
            Err(error) => return Err(error),
        }
        proof {
            assert(buffer@.take(size as int) =~= buffer@);
        }
        Ok(buffer)
    }

    /// Lists the directory at `path` into `buffer`.
    pub fn read_dir(&self, path: &str, buffer: &mut [u8]) -> (r: Result<usize, StorageError>)
        ensures
            ({
                let listing = match self.spec_resolve(path.spec_bytes()) {
                    Err(error) => Err(error),
                    Ok(FatResolvedPath::File(_)) => Err(StorageError::NotADirectory),
                    Ok(FatResolvedPath::RootDirectory) => self.fs.list_chain(&self.device, self.fs.root_cluster,
                        old(buffer)@.len() as int, self.fs.partition_sector_count as int),
                    Ok(FatResolvedPath::Directory(c)) => self.fs.list_chain(&self.device, c,
                        old(buffer)@.len() as int, self.fs.partition_sector_count as int),
                };
                match listing {
                    Ok(names) => r == Ok::<usize, StorageError>(names.len() as usize)
                        && final(buffer)@.take(names.len() as int) == names,
                    Err(error) => r == Err::<usize, StorageError>(error),
                }
            }),
    {
        self.fs.read_dir(&self.device, path, buffer)
    }

    /// Succeeds when `path` names a directory.
    pub fn ensure_dir(&self, path: &str) -> (r: Result<(), StorageError>)
        ensures
            match self.spec_resolve(path.spec_bytes()) {
                Err(error) => r == Err::<(), StorageError>(error),
                Ok(FatResolvedPath::File(_)) => r == Err::<(), StorageError>(StorageError::NotADirectory),
                Ok(_) => r is Ok,
            },
    {
        self.fs.ensure_dir(&self.device, path)
    }
}

/// Some used partition entry has type `guid`.
pub open spec fn has_entry_of_type(entries: Seq<Seq<u8>>, guid: Seq<u8>) -> bool {
    exists|i: int| 0 <= i < entries.len() && #[trigger] entries[i].take(16) == guid
}

/// Index of the first used partition entry named `name`.
pub open spec fn first_entry_named(entries: Seq<Seq<u8>>, name: Seq<u8>) -> Option<int> {
    if exists|i: int| 0 <= i < entries.len() && name_is(spec_partition_name(#[trigger] entries[i]), name) {
        Some(choose|i: int| 0 <= i < entries.len() && name_is(spec_partition_name(#[trigger] entries[i]), name)
            && forall|j: int| 0 <= j < i ==> !name_is(spec_partition_name(entries[j]), name))
    } else {
        None
    }
}

/// The volume mounted from the partition entry `entry` of `device`.
pub open spec fn mount_entry(device: BlockDevice, entry: Seq<u8>) -> Result<Fat32, StorageError> {
    let start = entry_first_lba(entry);
    if start >= device.sector_count() {
        Err(StorageError::AhciTaskFileError)
    } else {
        match spec_mount_range(device.sector(start), start as u64,
            (entry_last_lba(entry) - start + 1) as u64) {
            Some(fs) => Ok(fs),
            None => Err(StorageError::InvalidFat32BootSector),
        }
    }
}

/// The root volume of `device`: the partition table must hold an EFI system
/// partition, and the first partition named `name` is mounted.
pub open spec fn root_volume(device: BlockDevice, name: Seq<u8>) -> Result<Fat32, StorageError> {
    match gpt_entries(device) {
        Err(error) => Err(error),
        Ok(entries) => if !has_entry_of_type(entries, EFI_SYSTEM_PARTITION_GUID@) {
            Err(StorageError::MissingEspPartition)
        } else {
            match first_entry_named(entries, name) {
                None => Err(StorageError::MissingSystemPartition),
                Some(i) => mount_entry(device, entries[i]),
            }
        },
    }
}

/// What mounting `device` as the root comes to.
pub open spec fn mounted_as(r: Result<RootFs, StorageError>, device: BlockDevice) -> bool {
    match root_volume(device, "LAZERS-SYSTEM".spec_bytes()) {
        Ok(fs) => r is Ok && r.unwrap().fs == fs && r.unwrap().device == device,
        Err(error) => r is Err && r->Err_0 == error,
    }
}

/// Reads the partition table of `device`, checks that an EFI system
/// partition exists, and mounts the `LAZERS-SYSTEM` partition.
pub fn mount_root_fs(device: BlockDevice) -> (r: Result<RootFs, StorageError>)
    ensures
        mounted_as(r, device),
        r is Ok ==> r.unwrap().device.spec_image() == device.spec_image(),
{
    let partitions = match GptPartitions::read(&device) {
        Ok(partitions) => partitions,
        Err(error) => return Err(error),
    };
    let ghost entries = gpt_entries(device)->Ok_0;
    let ghost parts = partitions.spec_partitions();
    proof {
        assert(gpt_entries(device) is Ok);
    }
    if partitions.find_by_type(EFI_SYSTEM_PARTITION_GUID).is_none() {
        proof {
            if has_entry_of_type(entries, EFI_SYSTEM_PARTITION_GUID@) {
                let i = choose|i: int| 0 <= i < entries.len() && #[trigger] entries[i].take(16) == EFI_SYSTEM_PARTITION_GUID@;
                assert(partition_from_entry(parts[i], entries[i]));
                assert(parts[i].spec_type_guid() == EFI_SYSTEM_PARTITION_GUID@);
            }
        }
        return Err(StorageError::MissingEspPartition);
    }
    proof {
        let i = partitions.first_with_type(EFI_SYSTEM_PARTITION_GUID@)->Some_0;
        assert(partition_from_entry(parts[i], entries[i]));
        assert(entries[i].take(16) == EFI_SYSTEM_PARTITION_GUID@);
        assert(has_entry_of_type(entries, EFI_SYSTEM_PARTITION_GUID@));
    }
    let system = match partitions.find_by_name("LAZERS-SYSTEM") {
        Some(system) => system,
        None => {
            proof {
                let name = "LAZERS-SYSTEM".spec_bytes();
                if exists|i: int| 0 <= i < entries.len() && name_is(spec_partition_name(#[trigger] entries[i]), name) {
                    let i = choose|i: int| 0 <= i < entries.len() && name_is(spec_partition_name(#[trigger] entries[i]), name);
                    assert(partition_from_entry(parts[i], entries[i]));
                    assert(name_is(parts[i].spec_name(), name));
                }
            }
            return Err(StorageError::MissingSystemPartition);
        },
    };
    proof {
        let name = "LAZERS-SYSTEM".spec_bytes();
        let k = partitions.first_named(name)->Some_0;
        assert(partition_from_entry(parts[k], entries[k]));
        assert(name_is(spec_partition_name(entries[k]), name));
        let i = first_entry_named(entries, name)->Some_0;
        assert(partition_from_entry(parts[i], entries[i]));
        if i < k {
            assert(name_is(parts[i].spec_name(), name));
        }
        if k < i {
            assert(partition_from_entry(parts[k], entries[k]));
            assert(!name_is(spec_partition_name(entries[k]), name));
        }
        assert(i == k);
    }
    let fs = match Fat32::mount(&device, system) {
        Ok(fs) => fs,
        Err(error) => return Err(error),
    };
    Ok(RootFs { fs, device })
}

/// Mounts the runtime root filesystem from the system disk.
pub fn init_root_fs(device: BlockDevice) -> (r: Result<RootFs, StorageError>)
    ensures
        mounted_as(r, device),
        r is Ok ==> r.unwrap().device.spec_image() == device.spec_image(),
{
    mount_root_fs(device)
}

/// Reads a file of the mounted root filesystem.
pub fn read_root_file(root: Option<&RootFs>, path: &str) -> (r: Result<Vec<u8>, StorageError>)
    ensures
        root is None ==> r == Err::<Vec<u8>, StorageError>(StorageError::RootFsUnavailable),
        root is Some ==> match root.unwrap().spec_read_file(path.spec_bytes()) {
            Ok(bytes) => r is Ok && r.unwrap()@ == bytes,
            Err(error) => r == Err::<Vec<u8>, StorageError>(error),
        },
{
    match root {
        Some(root) => root.read_file(path),
        None => Err(StorageError::RootFsUnavailable),
    }
}

/// Reads a file of the mounted root filesystem into `buffer`.
pub fn read_root_file_into(root: Option<&RootFs>, path: &str, buffer: &mut [u8]) -> (r: Result<usize, StorageError>)
    ensures
        root is None ==> r == Err::<usize, StorageError>(StorageError::RootFsUnavailable),
        root is Some ==> match root.unwrap().spec_resolve(path.spec_bytes()) {
            Err(error) => r == Err::<usize, StorageError>(error),
            Ok(FatResolvedPath::File(entry)) => if old(buffer)@.len() < entry.size {
                r == Err::<usize, StorageError>(StorageError::BufferTooSmall)
            } else {
                match root.unwrap().fs.file_chain(&root.unwrap().device, entry.first_cluster, entry.size as int,
                    root.unwrap().fs.partition_sector_count as int) {
                    Ok(bytes) => r == Ok::<usize, StorageError>(entry.size as usize) && final(buffer)@.take(entry.size as int) == bytes,
                    Err(error) => r == Err::<usize, StorageError>(error),
                }
            },
            Ok(_) => r == Err::<usize, StorageError>(StorageError::NotAFile),
        },
{
    match root {
        Some(root) => root.read_file_into(path, buffer),
        None => Err(StorageError::RootFsUnavailable),
    }
}

/// Lists a directory of the mounted root filesystem.
pub fn read_root_dir(root: Option<&RootFs>, path: &str, buffer: &mut [u8]) -> (r: Result<usize, StorageError>)
    ensures
        root is None ==> r == Err::<usize, StorageError>(StorageError::RootFsUnavailable),
        root is Some ==> {
            let fs = root.unwrap();
            let listing = match fs.spec_resolve(path.spec_bytes()) {
                Err(error) => Err(error),
                Ok(FatResolvedPath::File(_)) => Err(StorageError::NotADirectory),
                Ok(FatResolvedPath::RootDirectory) => fs.fs.list_chain(&fs.device, fs.fs.root_cluster,
                    old(buffer)@.len() as int, fs.fs.partition_sector_count as int),
                Ok(FatResolvedPath::Directory(c)) => fs.fs.list_chain(&fs.device, c,
                    old(buffer)@.len() as int, fs.fs.partition_sector_count as int),
            };
            match listing {
                Ok(names) => r == Ok::<usize, StorageError>(names.len() as usize)
                    && final(buffer)@.take(names.len() as int) == names,
                Err(error) => r == Err::<usize, StorageError>(error),
            }
        },
{
    match root {
        Some(root) => root.read_dir(path, buffer),
        None => Err(StorageError::RootFsUnavailable),
    }
}

/// Checks that a directory exists on the mounted root filesystem.
pub fn ensure_root_dir(root: Option<&RootFs>, path: &str) -> (r: Result<(), StorageError>)
    ensures
        root is None ==> r == Err::<(), StorageError>(StorageError::RootFsUnavailable),
        root is Some ==> match root.unwrap().spec_resolve(path.spec_bytes()) {
            Err(error) => r == Err::<(), StorageError>(error),
            Ok(FatResolvedPath::File(_)) => r == Err::<(), StorageError>(StorageError::NotADirectory),
            Ok(_) => r is Ok,
        },
{
    match root {
        Some(root) => root.ensure_dir(path),
        None => Err(StorageError::RootFsUnavailable),
    }
}

} // verus!
