//! ELF64 executable header and program-header decoding for the user loader.
use vstd::prelude::*;

use crate::util::{spec_le_u16, spec_le_u32, spec_le_u64, le_u16_from_bytes, le_u32_from_bytes, le_u64_from_bytes};

verus! {

pub const ELF_HEADER_SIZE: usize = 64;
pub const PROGRAM_HEADER_SIZE: usize = 56;
pub const PT_LOAD: u32 = 1;
pub const PF_W: u32 = 2;
pub const ET_EXEC: u16 = 2;
pub const EM_X86_64: u16 = 62;

/// Reasons an image is not a loadable x86_64 ELF64 executable.
#[derive(Clone, Copy, Debug, PartialEq, Eq, Structural)]
pub enum ElfError {
    HeaderTooSmall,
    InvalidMagic,
    UnsupportedClass,
    UnsupportedEncoding,
    UnsupportedType,
    UnsupportedMachine,
    UnsupportedVersion,
    ProgramHeaderTruncated,
    ProgramHeaderTableOutOfRange,
    SegmentExtendsPastFile,
    AddressOutOfRange,
    ZeroLoadAddress,
}

/// The description that `elf_error_as_str` reports for each error.
pub open spec fn elf_error_message(error: ElfError) -> Seq<char> {
    match error {
        ElfError::HeaderTooSmall => "elf header is too small"@,
        ElfError::InvalidMagic => "elf magic is invalid"@,
        ElfError::UnsupportedClass => "elf class is unsupported"@,
        ElfError::UnsupportedEncoding => "elf encoding is unsupported"@,
        ElfError::UnsupportedType => "elf type is unsupported"@,
        ElfError::UnsupportedMachine => "elf machine is unsupported"@,
        ElfError::UnsupportedVersion => "elf version is unsupported"@,
        ElfError::ProgramHeaderTruncated => "elf program header is truncated"@,
        ElfError::ProgramHeaderTableOutOfRange => "elf program header table is out of range"@,
        ElfError::SegmentExtendsPastFile => "elf segment extends past the image"@,
        ElfError::AddressOutOfRange => "elf address is out of range"@,
        ElfError::ZeroLoadAddress => "elf load address is zero"@,
    }
}

/// Returns a short static description of an ELF decoding failure.
pub fn elf_error_as_str(error: ElfError) -> (r: &'static str)
    ensures
        r@ == elf_error_message(error),
{
    match error {
        ElfError::HeaderTooSmall => "elf header is too small",
        ElfError::InvalidMagic => "elf magic is invalid",
        ElfError::UnsupportedClass => "elf class is unsupported",
        ElfError::UnsupportedEncoding => "elf encoding is unsupported",
        ElfError::UnsupportedType => "elf type is unsupported",
        ElfError::UnsupportedMachine => "elf machine is unsupported",
        ElfError::UnsupportedVersion => "elf version is unsupported",
        ElfError::ProgramHeaderTruncated => "elf program header is truncated",
        ElfError::ProgramHeaderTableOutOfRange => "elf program header table is out of range",
        ElfError::SegmentExtendsPastFile => "elf segment extends past the image",
        ElfError::AddressOutOfRange => "elf address is out of range",
        ElfError::ZeroLoadAddress => "elf load address is zero",
    }
}

/// Header fields of an accepted executable.
#[derive(Clone, Copy, PartialEq, Eq, Structural)]
pub struct ElfImage {
    pub entry: u64,
    pub program_header_offset: u64,
    pub program_header_size: u16,
    pub program_header_count: u16,
}

/// One decoded program header.
#[derive(Clone, Copy, PartialEq, Eq, Structural)]
pub struct ProgramHeader {
    pub kind: u32,
    pub flags: u32,
    pub offset: u64,
    pub virtual_address: u64,
    pub file_size: u64,
    pub memory_size: u64,
}

pub open spec fn field_u16(bytes: Seq<u8>, offset: int) -> int {
    spec_le_u16(bytes.subrange(offset, offset + 2))
}

pub open spec fn field_u32(bytes: Seq<u8>, offset: int) -> int {
    spec_le_u32(bytes.subrange(offset, offset + 4))
}

pub open spec fn field_u64(bytes: Seq<u8>, offset: int) -> int {
    spec_le_u64(bytes.subrange(offset, offset + 8))
}

/// What decoding the ELF64 file header of `bytes` yields.
pub open spec fn spec_parse_elf(bytes: Seq<u8>) -> Result<ElfImage, ElfError> {
    if bytes.len() < ELF_HEADER_SIZE {
        Err(ElfError::HeaderTooSmall)
    } else if bytes[0] != 0x7f || bytes[1] != 0x45 || bytes[2] != 0x4c || bytes[3] != 0x46 {
        Err(ElfError::InvalidMagic)
    } else if bytes[4] != 2 {
        Err(ElfError::UnsupportedClass)
    } else if bytes[5] != 1 {
        Err(ElfError::UnsupportedEncoding)
    } else if bytes[6] != 1 {
        Err(ElfError::UnsupportedVersion)
    } else if field_u16(bytes, 16) != ET_EXEC {
        Err(ElfError::UnsupportedType)
    } else if field_u16(bytes, 18) != EM_X86_64 {
        Err(ElfError::UnsupportedMachine)
    } else if field_u32(bytes, 20) != 1 {
        Err(ElfError::UnsupportedVersion)
    } else if field_u16(bytes, 54) < PROGRAM_HEADER_SIZE {
        Err(ElfError::ProgramHeaderTruncated)
    } else if field_u64(bytes, 32) + field_u16(bytes, 56) * field_u16(bytes, 54) > bytes.len() {
        Err(ElfError::ProgramHeaderTableOutOfRange)
    } else {
        Ok(ElfImage {
            entry: field_u64(bytes, 24) as u64,
            program_header_offset: field_u64(bytes, 32) as u64,
            program_header_count: field_u16(bytes, 56) as u16,
            program_header_size: field_u16(bytes, 54) as u16,
        })
    }
}

/// What decoding program header `index` of an accepted image yields.
pub open spec fn spec_program_header(image: ElfImage, bytes: Seq<u8>, index: int) -> Result<ProgramHeader, ElfError> {
    let start = image.program_header_offset + index * image.program_header_size;
    let header = ProgramHeader {
        kind: field_u32(bytes, start) as u32,
        flags: field_u32(bytes, start + 4) as u32,
        offset: field_u64(bytes, start + 8) as u64,
        virtual_address: field_u64(bytes, start + 16) as u64,
        file_size: field_u64(bytes, start + 32) as u64,
        memory_size: field_u64(bytes, start + 40) as u64,
    };
    if header.kind == PT_LOAD && header.virtual_address == 0 {
        Err(ElfError::ZeroLoadAddress)
    } else if header.kind == PT_LOAD && header.virtual_address + header.memory_size > u64::MAX {
        Err(ElfError::AddressOutOfRange)
    } else {
        Ok(header)
    }
}

impl ElfImage {
    /// Validates the ELF64 file header of `bytes`.
    pub fn parse(bytes: &[u8]) -> (r: Result<ElfImage, ElfError>)
        ensures
            r == spec_parse_elf(bytes@),
    {
        if bytes.len() < ELF_HEADER_SIZE {
            return Err(ElfError::HeaderTooSmall);
        }
        if bytes[0] != 0x7f || bytes[1] != 0x45 || bytes[2] != 0x4c || bytes[3] != 0x46 {
            return Err(ElfError::InvalidMagic);
        }
        if bytes[4] != 2 {
            return Err(ElfError::UnsupportedClass);
        }
        if bytes[5] != 1 {
            return Err(ElfError::UnsupportedEncoding);
        }
        if bytes[6] != 1 {
            return Err(ElfError::UnsupportedVersion);
        }
        if le_u16_from_bytes(bytes, 16) != ET_EXEC {
            return Err(ElfError::UnsupportedType);
        }
        if le_u16_from_bytes(bytes, 18) != EM_X86_64 {
            return Err(ElfError::UnsupportedMachine);
        }
        if le_u32_from_bytes(bytes, 20) != 1 {
            return Err(ElfError::UnsupportedVersion);
        }
        let entry = le_u64_from_bytes(bytes, 24);
        let offset = le_u64_from_bytes(bytes, 32);
        let count = le_u16_from_bytes(bytes, 56);
        let size = le_u16_from_bytes(bytes, 54);
        if (size as usize) < PROGRAM_HEADER_SIZE {
            return Err(ElfError::ProgramHeaderTruncated);
        }
        assert(count as u64 * size as u64 <= 0xffff * 0xffff) by (nonlinear_arith)
            requires count <= 0xffff, size <= 0xffff;
        let table_len = count as u64 * size as u64;
        if offset > bytes.len() as u64 || table_len > bytes.len() as u64 - offset {
            return Err(ElfError::ProgramHeaderTableOutOfRange);
        }
        Ok(ElfImage {
            entry,
            program_header_offset: offset,
            program_header_count: count,
            program_header_size: size,
        })
    }

    pub fn entry_point(&self) -> (r: u64)
        ensures
            r == self.entry,
    {
        self.entry
    }

    pub fn program_header_count(&self) -> (r: usize)
        ensures
            r == self.program_header_count,
    {
        self.program_header_count as usize
    }

    /// Decodes program header `index`.
    pub fn program_header(&self, bytes: &[u8], index: usize) -> (r: Result<ProgramHeader, ElfError>)
        requires
            spec_parse_elf(bytes@) == Ok::<ElfImage, ElfError>(*self),
            index < self.program_header_count,
        ensures
            r == spec_program_header(*self, bytes@, index as int),
    {
        let _n = bytes.len();
        proof {
            assert(index * self.program_header_size + self.program_header_size <= self.program_header_count * self.program_header_size) by (nonlinear_arith)
                requires index < self.program_header_count, self.program_header_size >= 0;
        }
        let start = (self.program_header_offset + index as u64 * self.program_header_size as u64) as usize;
        let kind = le_u32_from_bytes(bytes, start);
        let flags = le_u32_from_bytes(bytes, start + 4);
        let offset = le_u64_from_bytes(bytes, start + 8);
        let virtual_address = le_u64_from_bytes(bytes, start + 16);
        let file_size = le_u64_from_bytes(bytes, start + 32);
        let memory_size = le_u64_from_bytes(bytes, start + 40);
        if kind == PT_LOAD && virtual_address == 0 {
            return Err(ElfError::ZeroLoadAddress);
        }
        if kind == PT_LOAD && virtual_address > u64::MAX - memory_size {
            return Err(ElfError::AddressOutOfRange);
        }
        Ok(ProgramHeader { kind, flags, offset, virtual_address, file_size, memory_size })
    }
}

impl ProgramHeader {
    /// The byte range of the image that backs this segment's file contents.
    pub fn file_range(&self, image_len: usize) -> (r: Result<(usize, usize), ElfError>)
        ensures
            self.offset + self.file_size <= image_len ==> r == Ok::<(usize, usize), ElfError>(
                (self.offset as usize, (self.offset + self.file_size) as usize)),
            self.offset + self.file_size > image_len ==> r == Err::<(usize, usize), ElfError>(ElfError::SegmentExtendsPastFile),
    {
        if self.offset > image_len as u64 || self.file_size > image_len as u64 - self.offset {
            return Err(ElfError::SegmentExtendsPastFile);
        }
        Ok((self.offset as usize, (self.offset + self.file_size) as usize))
    }
}

} // verus!
