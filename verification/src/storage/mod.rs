//! Bootstrap storage stack for disk-backed user program loading: GPT
//! partition discovery, a narrow read-only FAT32 reader, path normalization and
//! the runtime root filesystem.
use vstd::prelude::*;

use crate::memory::types::{MemoryError, memory_error_message};

pub mod path;
pub mod block;
pub mod gpt;
pub mod fat32;
pub mod rootfs;
pub mod ahci;

verus! {

/// Failures that can occur while discovering and reading the runtime root
/// filesystem.
#[derive(Clone, Copy, Debug, PartialEq, Eq, Structural)]
pub enum StorageError {
    Memory(MemoryError),
    AhciControllerNotFound,
    AhciPortNotFound,
    AhciCommandTimeout,
    AhciTaskFileError,
    InvalidGptHeader,
    InvalidPartitionTable,
    MissingEspPartition,
    MissingSystemPartition,
    InvalidFat32BootSector,
    InvalidPath,
    PathNotAbsolute,
    InvalidShortName,
    FileNotFound,
    NotAFile,
    NotADirectory,
    BufferTooSmall,
    RootFsUnavailable,
}

/// The description that `StorageError::as_str` reports for each error.
pub open spec fn storage_error_message(error: StorageError) -> Seq<char> {
    match error {
        StorageError::Memory(e) => memory_error_message(e),
        StorageError::AhciControllerNotFound => "no AHCI controller was found"@,
        StorageError::AhciPortNotFound => "no usable SATA disk was found on the AHCI controller"@,
        StorageError::AhciCommandTimeout => "an AHCI command timed out"@,
        StorageError::AhciTaskFileError => "the AHCI controller reported a task-file error"@,
        StorageError::InvalidGptHeader => "the GPT header is invalid"@,
        StorageError::InvalidPartitionTable => "the GPT partition table is invalid"@,
        StorageError::MissingEspPartition => "the EFI system partition is missing"@,
        StorageError::MissingSystemPartition => "the LAZERS-SYSTEM partition is missing"@,
        StorageError::InvalidFat32BootSector => "the system partition does not contain a supported FAT32 filesystem"@,
        StorageError::InvalidPath => "the requested path is invalid"@,
        StorageError::PathNotAbsolute => "the requested path is not absolute"@,
        StorageError::InvalidShortName => "the requested path component is not a supported FAT short name"@,
        StorageError::FileNotFound => "the requested file was not found"@,
        StorageError::NotAFile => "the requested path does not name a regular file"@,
        StorageError::NotADirectory => "the requested path does not name a directory"@,
        StorageError::BufferTooSmall => "the destination buffer is too small"@,
        StorageError::RootFsUnavailable => "the runtime root filesystem is not mounted"@,
    }
}

impl StorageError {
    /// Returns a short static description suitable for boot-time diagnostics.
    pub fn as_str(self) -> (r: &'static str)
        ensures
            r@ == storage_error_message(self),
    {
        match self {
            StorageError::Memory(error) => error.as_str(),
            StorageError::AhciControllerNotFound => "no AHCI controller was found",
            StorageError::AhciPortNotFound => "no usable SATA disk was found on the AHCI controller",
            StorageError::AhciCommandTimeout => "an AHCI command timed out",
            StorageError::AhciTaskFileError => "the AHCI controller reported a task-file error",
            StorageError::InvalidGptHeader => "the GPT header is invalid",
            StorageError::InvalidPartitionTable => "the GPT partition table is invalid",
            StorageError::MissingEspPartition => "the EFI system partition is missing",
            StorageError::MissingSystemPartition => "the LAZERS-SYSTEM partition is missing",
            StorageError::InvalidFat32BootSector => "the system partition does not contain a supported FAT32 filesystem",
            StorageError::InvalidPath => "the requested path is invalid",
            StorageError::PathNotAbsolute => "the requested path is not absolute",
            StorageError::InvalidShortName => "the requested path component is not a supported FAT short name",
            StorageError::FileNotFound => "the requested file was not found",
            StorageError::NotAFile => "the requested path does not name a regular file",
            StorageError::NotADirectory => "the requested path does not name a directory",
            StorageError::BufferTooSmall => "the destination buffer is too small",
            StorageError::RootFsUnavailable => "the runtime root filesystem is not mounted",
        }
    }
}

} // verus!
