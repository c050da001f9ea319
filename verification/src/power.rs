//! Kernel power control with an ACPI soft-off backend: the firmware tables
//! are parsed down to the PM1 control blocks and the `_S5` sleep types that
//! switch the machine off.
use vstd::prelude::*;

use crate::memory::phys::PhysicalMemory;
use crate::util::{le_u32_from_bytes, le_u64_from_bytes, spec_le_u32, spec_le_u64};

verus! {

pub const RSDP_V1_LENGTH: usize = 20;
pub const RSDP_V2_LENGTH: usize = 36;
pub const SDT_HEADER_LENGTH: usize = 36;
pub const FADT_DSDT_OFFSET: usize = 40;
pub const FADT_PM1A_CONTROL_BLOCK_OFFSET: usize = 64;
pub const FADT_PM1B_CONTROL_BLOCK_OFFSET: usize = 68;
pub const FADT_PM1_CONTROL_LENGTH_OFFSET: usize = 89;
pub const FADT_X_DSDT_OFFSET: usize = 140;
pub const FADT_X_PM1A_CONTROL_BLOCK_OFFSET: usize = 172;
pub const FADT_X_PM1B_CONTROL_BLOCK_OFFSET: usize = 184;
pub const GAS_LENGTH: usize = 12;
pub const GAS_SPACE_ID_SYSTEM_IO: u8 = 1;
pub const AML_NAME_OP: u8 = 0x08;
pub const AML_PACKAGE_OP: u8 = 0x12;
pub const AML_ROOT_PREFIX: u8 = 0x5c;
pub const AML_PARENT_PREFIX: u8 = 0x5e;
pub const AML_BYTE_PREFIX: u8 = 0x0a;
pub const AML_WORD_PREFIX: u8 = 0x0b;
pub const AML_DWORD_PREFIX: u8 = 0x0c;
pub const AML_QWORD_PREFIX: u8 = 0x0e;
pub const PM1_CONTROL_SLEEP_TYPE_SHIFT: u16 = 10;
pub const PM1_CONTROL_SLEEP_ENABLE: u16 = 0x2000;

/// Why soft-off is unavailable.
#[derive(Clone, Copy, Debug, PartialEq, Eq, Structural)]
pub enum PowerError {
    MissingRsdp,
    InvalidRsdp,
    MissingRootTable,
    InvalidRootTable,
    MissingFadt,
    InvalidFadt,
    MissingDsdt,
    InvalidDsdt,
    MissingPm1ControlBlock,
    UnsupportedPm1ControlBlock,
    MissingS5Package,
    InvalidS5Package,
    MappingFailed,
}

pub open spec fn power_error_message(error: PowerError) -> Seq<char> {
    match error {
        PowerError::MissingRsdp => "ACPI RSDP was not provided by the loader"@,
        PowerError::InvalidRsdp => "ACPI RSDP was malformed or failed checksum validation"@,
        PowerError::MissingRootTable => "ACPI root system table address was missing"@,
        PowerError::InvalidRootTable => "ACPI root system table was malformed or invalid"@,
        PowerError::MissingFadt => "ACPI FADT table was not found"@,
        PowerError::InvalidFadt => "ACPI FADT table was malformed or unsupported"@,
        PowerError::MissingDsdt => "ACPI DSDT table was not found"@,
        PowerError::InvalidDsdt => "ACPI DSDT table was malformed or unsupported"@,
        PowerError::MissingPm1ControlBlock => "ACPI PM1 control block was not described"@,
        PowerError::UnsupportedPm1ControlBlock => "ACPI PM1 control block used an unsupported address format"@,
        PowerError::MissingS5Package => "ACPI DSDT did not expose an _S5 shutdown package"@,
        PowerError::InvalidS5Package => "ACPI _S5 shutdown package was malformed"@,
        PowerError::MappingFailed => "kernel could not map the ACPI table range"@,
    }
}

impl PowerError {
    /// A short description for the shutdown screen.
    pub fn as_str(self) -> (r: &'static str)
        ensures
            r@ == power_error_message(self),
    {
        match self {
            PowerError::MissingRsdp => "ACPI RSDP was not provided by the loader",
            PowerError::InvalidRsdp => "ACPI RSDP was malformed or failed checksum validation",
            PowerError::MissingRootTable => "ACPI root system table address was missing",
            PowerError::InvalidRootTable => "ACPI root system table was malformed or invalid",
            PowerError::MissingFadt => "ACPI FADT table was not found",
            PowerError::InvalidFadt => "ACPI FADT table was malformed or unsupported",
            PowerError::MissingDsdt => "ACPI DSDT table was not found",
            PowerError::InvalidDsdt => "ACPI DSDT table was malformed or unsupported",
            PowerError::MissingPm1ControlBlock => "ACPI PM1 control block was not described",
            PowerError::UnsupportedPm1ControlBlock => "ACPI PM1 control block used an unsupported address format",
            PowerError::MissingS5Package => "ACPI DSDT did not expose an _S5 shutdown package",
            PowerError::InvalidS5Package => "ACPI _S5 shutdown package was malformed",
            PowerError::MappingFailed => "kernel could not map the ACPI table range",
        }
    }
}

/// Which root table the RSDP points to.
#[derive(Clone, Copy, Debug, PartialEq, Eq, Structural)]
pub enum RootTableKind {
    Rsdt,
    Xsdt,
}

#[derive(Clone, Copy, Debug, PartialEq, Eq, Structural)]
pub struct RootTable {
    pub kind: RootTableKind,
    pub address: u64,
}

/// Sum of the bytes of `s`.
pub open spec fn byte_sum(s: Seq<u8>) -> int
    decreases s.len(),
{
    if s.len() == 0 { 0 } else { byte_sum(s.drop_last()) + s.last() }
}

/// The 8-bit checksum of the first `length` bytes.
pub fn checksum(bytes: &[u8], length: usize) -> (r: u8)
    requires
        length <= bytes@.len(),
    ensures
        r == byte_sum(bytes@.take(length as int)) % 256,
{
    let mut sum: u8 = 0;
    let mut index: usize = 0;
    while index < length
        invariant
            length <= bytes@.len(),
            index <= length,
            sum == byte_sum(bytes@.take(index as int)) % 256,
        decreases length - index,
    {
        proof {
            assert(bytes@.take(index + 1).drop_last() =~= bytes@.take(index as int));
        }
        sum = sum.wrapping_add(bytes[index]);
        index += 1;
    }
    sum
}

/// The little-endian `u32` at `offset`, when it lies inside `bytes`.
pub open spec fn spec_read_u32(bytes: Seq<u8>, offset: int) -> Option<u32> {
    if offset + 4 <= bytes.len() { Some(spec_le_u32(bytes.subrange(offset, offset + 4)) as u32) } else { None }
}

/// The little-endian `u64` at `offset`, when it lies inside `bytes`.
pub open spec fn spec_read_u64(bytes: Seq<u8>, offset: int) -> Option<u64> {
    if offset + 8 <= bytes.len() { Some(spec_le_u64(bytes.subrange(offset, offset + 8)) as u64) } else { None }
}

pub fn read_u32(bytes: &[u8], offset: usize) -> (r: Option<u32>)
    ensures
        r == spec_read_u32(bytes@, offset as int),
{
    if offset > bytes.len() || bytes.len() - offset < 4 {
        return None;
    }
    Some(le_u32_from_bytes(bytes, offset))
}

pub fn read_u64(bytes: &[u8], offset: usize) -> (r: Option<u64>)
    ensures
        r == spec_read_u64(bytes@, offset as int),
{
    if offset > bytes.len() || bytes.len() - offset < 8 {
        return None;
    }
    Some(le_u64_from_bytes(bytes, offset))
}

/// "RSD PTR ".
pub open spec fn rsdp_signature() -> Seq<u8> {
    seq![0x52u8, 0x53, 0x44, 0x20, 0x50, 0x54, 0x52, 0x20]
}

fn has_prefix(bytes: &[u8], prefix: &[u8]) -> (r: bool)
    ensures
        r == (prefix@.len() <= bytes@.len() && bytes@.take(prefix@.len() as int) == prefix@),
{
    if prefix.len() > bytes.len() {
        return false;
    }
    let mut index: usize = 0;
    while index < prefix.len()
        invariant
            prefix@.len() <= bytes@.len(),
            index <= prefix@.len(),
            forall|i: int| 0 <= i < index ==> #[trigger] bytes@[i] == prefix@[i],
        decreases prefix@.len() - index,
    {
        if bytes[index] != prefix[index] {
            assert(bytes@.take(prefix@.len() as int)[index as int] != prefix@[index as int]);
            return false;
        }
        index += 1;
    }
    assert(bytes@.take(prefix@.len() as int) =~= prefix@);
    true
}

/// Where the RSDP says the root system table is: the XSDT when a revision-2
/// RSDP names one, the RSDT otherwise; both checksums must hold.
pub open spec fn spec_parse_rsdp(b: Seq<u8>) -> Result<RootTable, PowerError> {
    if b.len() < RSDP_V1_LENGTH || b.take(8) != rsdp_signature() || byte_sum(b.take(RSDP_V1_LENGTH as int)) % 256 != 0 {
        Err(PowerError::InvalidRsdp)
    } else if b[15] >= 2 && b.len() < RSDP_V2_LENGTH {
        Err(PowerError::InvalidRsdp)
    } else if b[15] >= 2 && {
        let length = spec_read_u32(b, 20).unwrap();
        length < RSDP_V2_LENGTH || b.len() < length || byte_sum(b.take(length as int)) % 256 != 0
    } {
        Err(PowerError::InvalidRsdp)
    } else if b[15] >= 2 && spec_read_u64(b, 24).unwrap() != 0 {
        Ok(RootTable { kind: RootTableKind::Xsdt, address: spec_read_u64(b, 24).unwrap() })
    } else if spec_read_u32(b, 16).unwrap() == 0 {
        Err(PowerError::MissingRootTable)
    } else {
        Ok(RootTable { kind: RootTableKind::Rsdt, address: spec_read_u32(b, 16).unwrap() as u64 })
    }
}

/// Parses the RSDP.
pub fn parse_rsdp(bytes: &[u8]) -> (r: Result<RootTable, PowerError>)
    ensures
        r == spec_parse_rsdp(bytes@),
{
    let signature: [u8; 8] = [0x52, 0x53, 0x44, 0x20, 0x50, 0x54, 0x52, 0x20];
    assert(signature@ =~= rsdp_signature());
    if bytes.len() < RSDP_V1_LENGTH || !has_prefix(bytes, &signature) || checksum(bytes, RSDP_V1_LENGTH) != 0 {
        return Err(PowerError::InvalidRsdp);
    }
    let revision = bytes[15];
    if revision >= 2 {
        if bytes.len() < RSDP_V2_LENGTH {
            return Err(PowerError::InvalidRsdp);
        }
        let length = match read_u32(bytes, 20) {
            Some(length) => length as usize,
            None => return Err(PowerError::InvalidRsdp),
        };
        if length < RSDP_V2_LENGTH || bytes.len() < length || checksum(bytes, length) != 0 {
            return Err(PowerError::InvalidRsdp);
        }
        let xsdt_address = match read_u64(bytes, 24) {
            Some(address) => address,
            None => return Err(PowerError::InvalidRsdp),
        };
        if xsdt_address != 0 {
            return Ok(RootTable { kind: RootTableKind::Xsdt, address: xsdt_address });
        }
    }
    let rsdt_address = match read_u32(bytes, 16) {
        Some(address) => address as u64,
        None => return Err(PowerError::InvalidRsdp),
    };
    if rsdt_address == 0 {
        return Err(PowerError::MissingRootTable);
    }
    Ok(RootTable { kind: RootTableKind::Rsdt, address: rsdt_address })
}

/// The length field of a table header, when it covers at least the header.
pub open spec fn spec_table_length(b: Seq<u8>) -> Option<int> {
    match spec_read_u32(b, 4) {
        Some(length) => if length < SDT_HEADER_LENGTH { None } else { Some(length as int) },
        None => None,
    }
}

pub fn parse_table_length(bytes: &[u8]) -> (r: Option<usize>)
    ensures
        match spec_table_length(bytes@) {
            Some(length) => r == Some(length as usize),
            None => r is None,
        },
{
    let length = match read_u32(bytes, 4) {
        Some(length) => length as usize,
        None => return None,
    };
    if length < SDT_HEADER_LENGTH {
        return None;
    }
    Some(length)
}

/// The table signatures the kernel looks for.
#[derive(Clone, Copy, Debug, PartialEq, Eq, Structural)]
pub enum TableSignature {
    Rsdt,
    Xsdt,
    Fadt,
    Dsdt,
}

/// The four signature bytes.
pub open spec fn signature_bytes(signature: TableSignature) -> Seq<u8> {
    match signature {
        TableSignature::Rsdt => seq![0x52u8, 0x53, 0x44, 0x54],
        TableSignature::Xsdt => seq![0x58u8, 0x53, 0x44, 0x54],
        TableSignature::Fadt => seq![0x46u8, 0x41, 0x43, 0x50],
        TableSignature::Dsdt => seq![0x44u8, 0x53, 0x44, 0x54],
    }
}

fn signature_array(signature: TableSignature) -> (r: [u8; 4])
    ensures
        r@ == signature_bytes(signature),
{
    let r: [u8; 4] = match signature {
        TableSignature::Rsdt => [0x52, 0x53, 0x44, 0x54],
        TableSignature::Xsdt => [0x58, 0x53, 0x44, 0x54],
        TableSignature::Fadt => [0x46, 0x41, 0x43, 0x50],
        TableSignature::Dsdt => [0x44, 0x53, 0x44, 0x54],
    };
    assert(r@ =~= signature_bytes(signature));
    r
}

/// The error a malformed table with the expected signature is reported as.
pub open spec fn spec_table_error(signature: TableSignature) -> PowerError {
    match signature {
        TableSignature::Fadt => PowerError::InvalidFadt,
        TableSignature::Dsdt => PowerError::InvalidDsdt,
        _ => PowerError::InvalidRootTable,
    }
}

pub fn table_error(signature: TableSignature) -> (r: PowerError)
    ensures
        r == spec_table_error(signature),
{
    match signature {
        TableSignature::Fadt => PowerError::InvalidFadt,
        TableSignature::Dsdt => PowerError::InvalidDsdt,
        _ => PowerError::InvalidRootTable,
    }
}

/// Whether `b` is a complete table with the expected signature and a valid checksum.
pub open spec fn spec_header_ok(b: Seq<u8>, signature: TableSignature) -> bool {
    &&& b.len() >= SDT_HEADER_LENGTH
    &&& spec_table_length(b) is Some
    &&& b.len() >= spec_table_length(b).unwrap()
    &&& b.take(4) == signature_bytes(signature)
    &&& byte_sum(b.take(spec_table_length(b).unwrap())) % 256 == 0
}

/// Checks a table header against the expected signature.
pub fn parse_sdt_header(bytes: &[u8], signature: TableSignature) -> (r: Result<(), PowerError>)
    ensures
        spec_header_ok(bytes@, signature) ==> r is Ok,
        !spec_header_ok(bytes@, signature) ==> r == Err::<(), PowerError>(spec_table_error(signature)),
{
    if bytes.len() < SDT_HEADER_LENGTH {
        return Err(table_error(signature));
    }
    let length = match parse_table_length(bytes) {
        Some(length) => length,
        None => return Err(table_error(signature)),
    };
    let expected = signature_array(signature);
    if bytes.len() < length || !has_prefix(bytes, &expected) || checksum(bytes, length) != 0 {
        return Err(table_error(signature));
    }
    Ok(())
}


/// The I/O port of a PM1 control block described by a generic address
/// structure, when it names one.
pub open spec fn spec_system_io_gas(b: Seq<u8>) -> Result<Option<u16>, PowerError> {
    if b.len() < GAS_LENGTH {
        Err(PowerError::InvalidFadt)
    } else {
        let address = spec_read_u64(b, 4).unwrap();
        if address == 0 {
            Ok(None)
        } else if b[0] != GAS_SPACE_ID_SYSTEM_IO || b[1] < 16 || address > 0xffff {
            Err(PowerError::UnsupportedPm1ControlBlock)
        } else {
            Ok(Some(address as u16))
        }
    }
}

pub fn parse_system_io_gas(bytes: &[u8]) -> (r: Result<Option<u16>, PowerError>)
    ensures
        r == spec_system_io_gas(bytes@),
{
    if bytes.len() < GAS_LENGTH {
        return Err(PowerError::InvalidFadt);
    }
    let space_id = bytes[0];
    let bit_width = bytes[1];
    let address = match read_u64(bytes, 4) {
        Some(address) => address,
        None => return Err(PowerError::InvalidFadt),
    };
    if address == 0 {
        return Ok(None);
    }
    if space_id != GAS_SPACE_ID_SYSTEM_IO || bit_width < 16 || address > 0xffff {
        return Err(PowerError::UnsupportedPm1ControlBlock);
    }
    Ok(Some(address as u16))
}

/// A PM1 control block port: the extended address when present, else the
/// legacy 32-bit field (zero meaning absent).
pub open spec fn spec_pm1_control_block(b: Seq<u8>, legacy: int, extended: int) -> Result<Option<u16>, PowerError> {
    let from_extended = if b.len() >= extended + GAS_LENGTH {
        spec_system_io_gas(b.subrange(extended, extended + GAS_LENGTH))
    } else {
        Ok(None)
    };
    match from_extended {
        Err(error) => Err(error),
        Ok(Some(port)) => Ok(Some(port)),
        Ok(None) => match spec_read_u32(b, legacy) {
            None => Err(PowerError::InvalidFadt),
            Some(value) => if value == 0 {
                Ok(None)
            } else if value > 0xffff {
                Err(PowerError::UnsupportedPm1ControlBlock)
            } else {
                Ok(Some(value as u16))
            },
        },
    }
}

pub fn select_pm1_control_block(bytes: &[u8], legacy_offset: usize, extended_offset: usize) -> (r: Result<Option<u16>, PowerError>)
    requires
        extended_offset <= 0x1000,
    ensures
        r == spec_pm1_control_block(bytes@, legacy_offset as int, extended_offset as int),
{
    if bytes.len() >= extended_offset + GAS_LENGTH {
        let gas = vstd::slice::slice_subrange(bytes, extended_offset, extended_offset + GAS_LENGTH);
        match parse_system_io_gas(gas) {
            Ok(Some(address)) => return Ok(Some(address)),
            Ok(None) => {},
            Err(error) => return Err(error),
        }
    }
    let legacy = match read_u32(bytes, legacy_offset) {
        Some(legacy) => legacy,
        None => return Err(PowerError::InvalidFadt),
    };
    if legacy == 0 {
        return Ok(None);
    }
    if legacy > 0xffff {
        return Err(PowerError::UnsupportedPm1ControlBlock);
    }
    Ok(Some(legacy as u16))
}

/// The DSDT address: the 64-bit field when present and non-zero, else the
/// 32-bit one.
pub open spec fn spec_dsdt_address(b: Seq<u8>) -> Result<u64, PowerError> {
    if b.len() >= FADT_X_DSDT_OFFSET + 8 && spec_read_u64(b, FADT_X_DSDT_OFFSET as int).unwrap() != 0 {
        Ok(spec_read_u64(b, FADT_X_DSDT_OFFSET as int).unwrap())
    } else {
        match spec_read_u32(b, FADT_DSDT_OFFSET as int) {
            None => Err(PowerError::InvalidFadt),
            Some(address) => if address == 0 { Err(PowerError::MissingDsdt) } else { Ok(address as u64) },
        }
    }
}

pub fn select_dsdt_address(bytes: &[u8]) -> (r: Result<u64, PowerError>)
    ensures
        r == spec_dsdt_address(bytes@),
{
    if bytes.len() >= FADT_X_DSDT_OFFSET + 8 {
        let x_dsdt = match read_u64(bytes, FADT_X_DSDT_OFFSET) {
            Some(address) => address,
            None => return Err(PowerError::InvalidFadt),
        };
        if x_dsdt != 0 {
            return Ok(x_dsdt);
        }
    }
    let dsdt = match read_u32(bytes, FADT_DSDT_OFFSET) {
        Some(address) => address as u64,
        None => return Err(PowerError::InvalidFadt),
    };
    if dsdt == 0 {
        return Err(PowerError::MissingDsdt);
    }
    Ok(dsdt)
}

/// What the kernel needs from the FADT.
#[derive(Clone, Copy, Debug, PartialEq, Eq, Structural)]
pub struct FadtInfo {
    pub dsdt_address: u64,
    pub pm1a_control_block: u16,
    pub pm1b_control_block: Option<u16>,
}

pub open spec fn spec_parse_fadt(b: Seq<u8>) -> Result<FadtInfo, PowerError> {
    if !spec_header_ok(b, TableSignature::Fadt) {
        Err(PowerError::InvalidFadt)
    } else if b.len() <= FADT_PM1_CONTROL_LENGTH_OFFSET || b[FADT_PM1_CONTROL_LENGTH_OFFSET as int] < 2 {
        Err(PowerError::InvalidFadt)
    } else {
        match spec_dsdt_address(b) {
            Err(error) => Err(error),
            Ok(dsdt_address) => match spec_pm1_control_block(b, FADT_PM1A_CONTROL_BLOCK_OFFSET as int, FADT_X_PM1A_CONTROL_BLOCK_OFFSET as int) {
                Err(error) => Err(error),
                Ok(None) => Err(PowerError::MissingPm1ControlBlock),
                Ok(Some(pm1a)) => match spec_pm1_control_block(b, FADT_PM1B_CONTROL_BLOCK_OFFSET as int, FADT_X_PM1B_CONTROL_BLOCK_OFFSET as int) {
                    Err(error) => Err(error),
                    Ok(pm1b) => Ok(FadtInfo { dsdt_address, pm1a_control_block: pm1a, pm1b_control_block: pm1b }),
                },
            },
        }
    }
}

/// Extracts the DSDT address and PM1 control blocks from the FADT.
pub fn parse_fadt(bytes: &[u8]) -> (r: Result<FadtInfo, PowerError>)
    ensures
        r == spec_parse_fadt(bytes@),
{
    match parse_sdt_header(bytes, TableSignature::Fadt) {
        Ok(()) => {},
        Err(error) => return Err(error),
    }
    if bytes.len() <= FADT_PM1_CONTROL_LENGTH_OFFSET || bytes[FADT_PM1_CONTROL_LENGTH_OFFSET] < 2 {
        return Err(PowerError::InvalidFadt);
    }
    let dsdt_address = match select_dsdt_address(bytes) {
        Ok(address) => address,
        Err(error) => return Err(error),
    };
    let pm1a_control_block = match select_pm1_control_block(bytes, FADT_PM1A_CONTROL_BLOCK_OFFSET, FADT_X_PM1A_CONTROL_BLOCK_OFFSET) {
        Ok(Some(port)) => port,
        Ok(None) => return Err(PowerError::MissingPm1ControlBlock),
        Err(error) => return Err(error),
    };
    let pm1b_control_block = match select_pm1_control_block(bytes, FADT_PM1B_CONTROL_BLOCK_OFFSET, FADT_X_PM1B_CONTROL_BLOCK_OFFSET) {
        Ok(port) => port,
        Err(error) => return Err(error),
    };
    Ok(FadtInfo { dsdt_address, pm1a_control_block, pm1b_control_block })
}

/// An AML package length: the value and how many bytes encode it.
pub open spec fn spec_package_length(b: Seq<u8>) -> Option<(int, int)> {
    if b.len() == 0 {
        None
    } else {
        let following = (b[0] >> 6u8) as int;
        if b.len() < 1 + following {
            None
        } else {
            let low = (b[0] & 0x0fu8) as int;
            let value = if following == 0 {
                low
            } else if following == 1 {
                low + b[1] as int * 16
            } else if following == 2 {
                low + b[1] as int * 16 + b[2] as int * 0x1000
            } else {
                low + b[1] as int * 16 + b[2] as int * 0x1000 + b[3] as int * 0x10_0000
            };
            Some((value, 1 + following))
        }
    }
}

pub fn parse_package_length(bytes: &[u8]) -> (r: Option<(usize, usize)>)
    ensures
        match spec_package_length(bytes@) {
            Some((value, size)) => r == Some((value as usize, size as usize)),
            None => r is None,
        },
{
    if bytes.len() == 0 {
        return None;
    }
    let lead = bytes[0];
    let following = (lead >> 6u8) as usize;
    assert(lead >> 6u8 <= 3) by (bit_vector);
    if bytes.len() < 1 + following {
        return None;
    }
    let low = (lead & 0x0fu8) as usize;
    assert(lead & 0x0fu8 <= 15) by (bit_vector);
    let mut length = low;
    let mut index: usize = 0;
    let mut scale: usize = 16;
    while index < following
        invariant
            following <= 3,
            1 + following <= bytes@.len(),
            index <= following,
            scale == if index == 0 { 16usize } else if index == 1 { 0x1000usize } else if index == 2 { 0x10_0000usize } else { 0x1000_0000usize },
            length <= 0x0fff_ffff,
            low <= 15,
            length == low + (if index >= 1 { bytes@[1] as int * 16 } else { 0 })
                + (if index >= 2 { bytes@[2] as int * 0x1000 } else { 0 })
                + (if index >= 3 { bytes@[3] as int * 0x10_0000 } else { 0 }),
        decreases following - index,
    {
        let byte = bytes[1 + index] as usize;
        assert(byte * scale <= 255 * scale) by (nonlinear_arith)
            requires
                byte <= 255,
        ;
        length = length + byte * scale;
        scale = if index == 0 { 0x1000 } else if index == 1 { 0x10_0000 } else { 0x1000_0000 };
        index += 1;
    }
    Some((length, 1 + following))
}

/// An AML integer constant: its low 16 bits and how many bytes encode it.
pub open spec fn spec_aml_integer(b: Seq<u8>) -> Option<(u16, int)> {
    if b.len() == 0 {
        None
    } else if b[0] == 0x00 {
        Some((0u16, 1))
    } else if b[0] == 0x01 {
        Some((1u16, 1))
    } else if b[0] == AML_BYTE_PREFIX && b.len() >= 2 {
        Some((b[1] as u16, 2))
    } else if b[0] == AML_WORD_PREFIX && b.len() >= 3 {
        Some(((b[1] as int + b[2] as int * 256) as u16, 3))
    } else if b[0] == AML_DWORD_PREFIX && b.len() >= 5 {
        Some(((b[1] as int + b[2] as int * 256) as u16, 5))
    } else if b[0] == AML_QWORD_PREFIX && b.len() >= 9 {
        Some(((b[1] as int + b[2] as int * 256) as u16, 9))
    } else {
        None
    }
}

pub fn parse_aml_integer(bytes: &[u8]) -> (r: Option<(u16, usize)>)
    ensures
        match spec_aml_integer(bytes@) {
            Some((value, size)) => r == Some((value, size as usize)),
            None => r is None,
        },
{
    if bytes.len() == 0 {
        return None;
    }
    let opcode = bytes[0];
    if opcode == 0x00 {
        Some((0, 1))
    } else if opcode == 0x01 {
        Some((1, 1))
    } else if opcode == AML_BYTE_PREFIX && bytes.len() >= 2 {
        Some((bytes[1] as u16, 2))
    } else if opcode == AML_WORD_PREFIX && bytes.len() >= 3 {
        Some((bytes[1] as u16 + bytes[2] as u16 * 256, 3))
    } else if opcode == AML_DWORD_PREFIX && bytes.len() >= 5 {
        Some((bytes[1] as u16 + bytes[2] as u16 * 256, 5))
    } else if opcode == AML_QWORD_PREFIX && bytes.len() >= 9 {
        Some((bytes[1] as u16 + bytes[2] as u16 * 256, 9))
    } else {
        None
    }
}

/// "_S5_".
pub open spec fn s5_name() -> Seq<u8> {
    seq![0x5fu8, 0x53, 0x35, 0x5f]
}

/// Searches AML from `index` on for `Name(_S5_, Package { a, b, ... })`
/// and gives the sleep types `a` and `b` (three bits each).
pub open spec fn s5_scan(aml: Seq<u8>, index: int) -> Result<(u16, u16), PowerError>
    decreases aml.len() - index,
{
    if index < 0 || index + 6 > aml.len() {
        Err(PowerError::MissingS5Package)
    } else {
        let name_start: Option<int> = if aml[index] == AML_NAME_OP {
            Some(index + 1)
        } else if index + 1 < aml.len() && (aml[index] == AML_ROOT_PREFIX || aml[index] == AML_PARENT_PREFIX)
            && aml[index + 1] == AML_NAME_OP {
            Some(index + 2)
        } else {
            None
        };
        match name_start {
            None => s5_scan(aml, index + 1),
            Some(ns) => if ns + 4 > aml.len() || aml.subrange(ns, ns + 4) != s5_name() {
                s5_scan(aml, index + 1)
            } else if ns + 4 >= aml.len() || aml[ns + 4] != AML_PACKAGE_OP {
                s5_scan(aml, index + 1)
            } else {
                let package = ns + 5;
                match spec_package_length(aml.skip(package)) {
                    None => Err(PowerError::InvalidS5Package),
                    Some((_, size)) => if package + size >= aml.len() {
                        Err(PowerError::InvalidS5Package)
                    } else {
                        let first = package + size + 1;
                        match spec_aml_integer(aml.skip(first)) {
                            None => Err(PowerError::InvalidS5Package),
                            Some((a, used)) => match spec_aml_integer(aml.skip(first + used)) {
                                None => Err(PowerError::InvalidS5Package),
                                Some((b, _)) => Ok((a & 7u16, b & 7u16)),
                            },
                        }
                    },
                }
            },
        }
    }
}

/// Finds the `_S5_` sleep types in the DSDT.
#[verifier::rlimit(40)]
pub fn parse_s5_package(dsdt: &[u8]) -> (r: Result<(u16, u16), PowerError>)
    ensures
        !spec_header_ok(dsdt@, TableSignature::Dsdt) ==> r == Err::<(u16, u16), PowerError>(PowerError::InvalidDsdt),
        spec_header_ok(dsdt@, TableSignature::Dsdt) ==> r == s5_scan(dsdt@.skip(SDT_HEADER_LENGTH as int), 0),
{
    match parse_sdt_header(dsdt, TableSignature::Dsdt) {
        Ok(()) => {},
        Err(error) => return Err(error),
    }
    let aml = vstd::slice::slice_subrange(dsdt, SDT_HEADER_LENGTH, dsdt.len());
    assert(aml@ =~= dsdt@.skip(SDT_HEADER_LENGTH as int));
    let len = aml.len();
    let mut index: usize = 0;
    while index <= len && len - index >= 6
        invariant
            len == aml@.len(),
            spec_header_ok(dsdt@, TableSignature::Dsdt),
            aml@ == dsdt@.skip(SDT_HEADER_LENGTH as int),
            s5_scan(aml@, 0) == s5_scan(aml@, index as int),
        decreases len - index,
    {
        let name_start = if aml[index] == AML_NAME_OP {
            index + 1
        } else if index + 1 < len && (aml[index] == AML_ROOT_PREFIX || aml[index] == AML_PARENT_PREFIX) && aml[index + 1] == AML_NAME_OP {
            index + 2
        } else {
            index += 1;
            continue;
        };
        let s5: [u8; 4] = [0x5f, 0x53, 0x35, 0x5f];
        if name_start + 4 > len || aml[name_start] != s5[0] || aml[name_start + 1] != s5[1]
            || aml[name_start + 2] != s5[2] || aml[name_start + 3] != s5[3] {
            proof {
                if name_start + 4 <= len {
                    let w = aml@.subrange(name_start as int, name_start + 4);
                    if w =~= s5_name() {
                        assert(w[0] == aml@[name_start as int]);
                    }
                }
            }
            index += 1;
            continue;
        }
        assert(aml@.subrange(name_start as int, name_start + 4) =~= s5_name());
        let mut cursor = name_start + 4;
        if cursor >= len || aml[cursor] != AML_PACKAGE_OP {
            index += 1;
            continue;
        }
        cursor += 1;
        let rest = vstd::slice::slice_subrange(aml, cursor, len);
        assert(rest@ =~= aml@.skip(cursor as int));
        let package_length_bytes = match parse_package_length(rest) {
            Some((_, size)) => size,
            None => return Err(PowerError::InvalidS5Package),
        };
        if package_length_bytes >= len - cursor {
            return Err(PowerError::InvalidS5Package);
        }
        cursor += package_length_bytes;
        cursor += 1;
        let first = vstd::slice::slice_subrange(aml, cursor, len);
        assert(first@ =~= aml@.skip(cursor as int));
        let (sleep_type_a, consumed_a) = match parse_aml_integer(first) {
            Some(value) => value,
            None => return Err(PowerError::InvalidS5Package),
        };
        let second = vstd::slice::slice_subrange(aml, cursor + consumed_a, len);
        assert(second@ =~= aml@.skip(cursor + consumed_a));
        let sleep_type_b = match parse_aml_integer(second) {
            Some((value, _)) => value,
            None => return Err(PowerError::InvalidS5Package),
        };
        return Ok((sleep_type_a & 7, sleep_type_b & 7));
    }
    Err(PowerError::MissingS5Package)
}


/// The `len` bytes at physical `address`, when the window holds them.
pub open spec fn spec_map_bytes(memory: PhysicalMemory, address: u64, len: int) -> Result<Seq<u8>, PowerError> {
    if len == 0 || address + len > u64::MAX || !memory.covers(address as int, address + len) {
        Err(PowerError::MappingFailed)
    } else {
        Ok(memory.bytes_at(address as int, len))
    }
}

/// Reads `len` bytes of firmware table memory.
pub fn map_bytes(memory: &PhysicalMemory, address: u64, len: usize) -> (r: Result<&[u8], PowerError>)
    requires
        memory.wf(),
    ensures
        match spec_map_bytes(*memory, address, len as int) {
            Ok(bytes) => r is Ok && r.unwrap()@ == bytes,
            Err(error) => r == Err::<&[u8], PowerError>(error),
        },
{
    if len == 0 {
        return Err(PowerError::MappingFailed);
    }
    let end = match address.checked_add(len as u64) {
        Some(end) => end,
        None => return Err(PowerError::MappingFailed),
    };
    if !memory.contains_range(address, len as u64) {
        return Err(PowerError::MappingFailed);
    }
    Ok(memory.read_bytes(address, len))
}

/// The complete table at `address` after its header and checksum were checked.
pub open spec fn spec_map_sdt(memory: PhysicalMemory, address: u64, signature: TableSignature) -> Result<Seq<u8>, PowerError> {
    if address == 0 {
        Err(PowerError::MissingRootTable)
    } else {
        match spec_map_bytes(memory, address, SDT_HEADER_LENGTH as int) {
            Err(error) => Err(error),
            Ok(header) => match spec_table_length(header) {
                None => Err(PowerError::InvalidRootTable),
                Some(length) => match spec_map_bytes(memory, address, length) {
                    Err(error) => Err(error),
                    Ok(table) => if spec_header_ok(table, signature) { Ok(table) } else { Err(spec_table_error(signature)) },
                },
            },
        }
    }
}

pub fn map_sdt(memory: &PhysicalMemory, address: u64, signature: TableSignature) -> (r: Result<&[u8], PowerError>)
    requires
        memory.wf(),
    ensures
        match spec_map_sdt(*memory, address, signature) {
            Ok(table) => r is Ok && r.unwrap()@ == table,
            Err(error) => r == Err::<&[u8], PowerError>(error),
        },
{
    if address == 0 {
        return Err(PowerError::MissingRootTable);
    }
    let header = match map_bytes(memory, address, SDT_HEADER_LENGTH) {
        Ok(header) => header,
        Err(error) => return Err(error),
    };
    let length = match parse_table_length(header) {
        Some(length) => length,
        None => return Err(PowerError::InvalidRootTable),
    };
    let table = match map_bytes(memory, address, length) {
        Ok(table) => table,
        Err(error) => return Err(error),
    };
    match parse_sdt_header(table, signature) {
        Ok(()) => Ok(table),
        Err(error) => Err(error),
    }
}

/// Whether the table at `address` carries the FADT signature.
pub open spec fn is_fadt_at(memory: PhysicalMemory, address: u64) -> Result<bool, PowerError> {
    match spec_map_bytes(memory, address, SDT_HEADER_LENGTH as int) {
        Err(error) => Err(error),
        Ok(header) => Ok(header.take(4) == signature_bytes(TableSignature::Fadt)),
    }
}

/// Scans root-table entries from `offset` on for the FADT.
pub open spec fn fadt_scan(memory: PhysicalMemory, root: Seq<u8>, entry_size: int, offset: int) -> Result<u64, PowerError>
    decreases root.len() - offset,
{
    if offset < 0 || entry_size <= 0 || offset + entry_size > root.len() {
        Err(PowerError::MissingFadt)
    } else {
        let address: u64 = if entry_size == 4 { spec_read_u32(root, offset).unwrap() as u64 } else { spec_read_u64(root, offset).unwrap() };
        if address == 0 {
            fadt_scan(memory, root, entry_size, offset + entry_size)
        } else {
            match is_fadt_at(memory, address) {
                Err(error) => Err(error),
                Ok(true) => Ok(address),
                Ok(false) => fadt_scan(memory, root, entry_size, offset + entry_size),
            }
        }
    }
}

/// Size of one root-table entry.
pub open spec fn entry_size_of(kind: RootTableKind) -> int {
    match kind {
        RootTableKind::Rsdt => 4,
        RootTableKind::Xsdt => 8,
    }
}

/// Finds the FADT among the tables the root table lists.
pub fn find_fadt_address(memory: &PhysicalMemory, root: &[u8], kind: RootTableKind) -> (r: Result<u64, PowerError>)
    requires
        memory.wf(),
    ensures
        r == fadt_scan(*memory, root@, entry_size_of(kind), SDT_HEADER_LENGTH as int),
{
    let entry_size: usize = match kind {
        RootTableKind::Rsdt => 4,
        RootTableKind::Xsdt => 8,
    };
    let fadt = signature_array(TableSignature::Fadt);
    let mut offset = SDT_HEADER_LENGTH;
    while offset <= root.len() && root.len() - offset >= entry_size
        invariant
            memory.wf(),
            entry_size == entry_size_of(kind),
            fadt@ == signature_bytes(TableSignature::Fadt),
            SDT_HEADER_LENGTH <= offset,
            fadt_scan(*memory, root@, entry_size as int, SDT_HEADER_LENGTH as int)
                == fadt_scan(*memory, root@, entry_size as int, offset as int),
        decreases root@.len() - offset,
    {
        let table_address = if entry_size == 4 {
            match read_u32(root, offset) {
                Some(value) => value as u64,
                None => return Err(PowerError::InvalidRootTable),
            }
        } else {
            match read_u64(root, offset) {
                Some(value) => value,
                None => return Err(PowerError::InvalidRootTable),
            }
        };
        if table_address != 0 {
            let header = match map_bytes(memory, table_address, SDT_HEADER_LENGTH) {
                Ok(header) => header,
                Err(error) => return Err(error),
            };
            if has_prefix(header, &fadt) {
                return Ok(table_address);
            }
        }
        offset += entry_size;
    }
    Err(PowerError::MissingFadt)
}

/// The values that switch the machine off: the sleep types written with the
/// sleep-enable bit into PM1a (and PM1b when present).
#[derive(Clone, Copy, Debug, PartialEq, Eq, Structural)]
pub struct AcpiShutdown {
    pub pm1a_control_block: u16,
    pub pm1b_control_block: Option<u16>,
    pub sleep_type_a: u16,
    pub sleep_type_b: u16,
}

/// The PM1 control value that enters sleep state `sleep_type`.
pub open spec fn spec_sleep_command(sleep_type: u16) -> u16 {
    (sleep_type << 10u16) | 0x2000u16
}

/// One 16-bit port write.
#[derive(Clone, Copy, Debug, PartialEq, Eq, Structural)]
pub struct PortWrite {
    pub port: u16,
    pub value: u16,
}

impl AcpiShutdown {
    /// The port writes that power the machine off, PM1a first.
    pub fn commands(&self) -> (r: (PortWrite, Option<PortWrite>))
        ensures
            r.0 == (PortWrite { port: self.pm1a_control_block, value: spec_sleep_command(self.sleep_type_a) }),
            r.1 == match self.pm1b_control_block {
                Some(port) => Some(PortWrite { port, value: spec_sleep_command(self.sleep_type_b) }),
                None => None,
            },
    {
        let command_a = (self.sleep_type_a << PM1_CONTROL_SLEEP_TYPE_SHIFT) | PM1_CONTROL_SLEEP_ENABLE;
        let second = match self.pm1b_control_block {
            Some(port) => Some(PortWrite { port, value: (self.sleep_type_b << PM1_CONTROL_SLEEP_TYPE_SHIFT) | PM1_CONTROL_SLEEP_ENABLE }),
            None => None,
        };
        (PortWrite { port: self.pm1a_control_block, value: command_a }, second)
    }
}

/// Walks RSDP, root table, FADT and DSDT to the soft-off parameters.
pub open spec fn spec_discover(memory: PhysicalMemory, rsdp_address: u64) -> Result<AcpiShutdown, PowerError> {
    if rsdp_address == 0 {
        Err(PowerError::MissingRsdp)
    } else {
        match spec_map_bytes(memory, rsdp_address, RSDP_V2_LENGTH as int) {
            Err(error) => Err(error),
            Ok(rsdp) => match spec_parse_rsdp(rsdp) {
                Err(error) => Err(error),
                Ok(root_table) => {
                    let signature = match root_table.kind {
                        RootTableKind::Rsdt => TableSignature::Rsdt,
                        RootTableKind::Xsdt => TableSignature::Xsdt,
                    };
                    match spec_map_sdt(memory, root_table.address, signature) {
                        Err(error) => Err(error),
                        Ok(root) => match fadt_scan(memory, root, entry_size_of(root_table.kind), SDT_HEADER_LENGTH as int) {
                            Err(error) => Err(error),
                            Ok(fadt_address) => match spec_map_sdt(memory, fadt_address, TableSignature::Fadt) {
                                Err(error) => Err(error),
                                Ok(fadt) => match spec_parse_fadt(fadt) {
                                    Err(error) => Err(error),
                                    Ok(info) => match spec_map_sdt(memory, info.dsdt_address, TableSignature::Dsdt) {
                                        Err(error) => Err(error),
                                        Ok(dsdt) => match s5_scan(dsdt.skip(SDT_HEADER_LENGTH as int), 0) {
                                            Err(error) => Err(error),
                                            Ok((a, b)) => Ok(AcpiShutdown {
                                                pm1a_control_block: info.pm1a_control_block,
                                                pm1b_control_block: info.pm1b_control_block,
                                                sleep_type_a: a,
                                                sleep_type_b: b,
                                            }),
                                        },
                                    },
                                },
                            },
                        },
                    }
                },
            },
        }
    }
}

/// Reads the firmware tables that describe how to switch the machine off.
pub fn discover_acpi_shutdown(memory: &PhysicalMemory, rsdp_address: u64) -> (r: Result<AcpiShutdown, PowerError>)
    requires
        memory.wf(),
    ensures
        r == spec_discover(*memory, rsdp_address),
{
    if rsdp_address == 0 {
        return Err(PowerError::MissingRsdp);
    }
    let rsdp = match map_bytes(memory, rsdp_address, RSDP_V2_LENGTH) {
        Ok(rsdp) => rsdp,
        Err(error) => return Err(error),
    };
    let root_table = match parse_rsdp(rsdp) {
        Ok(root_table) => root_table,
        Err(error) => return Err(error),
    };
    let signature = match root_table.kind {
        RootTableKind::Rsdt => TableSignature::Rsdt,
        RootTableKind::Xsdt => TableSignature::Xsdt,
    };
    let root = match map_sdt(memory, root_table.address, signature) {
        Ok(root) => root,
        Err(error) => return Err(error),
    };
    let fadt_address = match find_fadt_address(memory, root, root_table.kind) {
        Ok(address) => address,
        Err(error) => return Err(error),
    };
    let fadt = match map_sdt(memory, fadt_address, TableSignature::Fadt) {
        Ok(fadt) => fadt,
        Err(error) => return Err(error),
    };
    let info = match parse_fadt(fadt) {
        Ok(info) => info,
        Err(error) => return Err(error),
    };
    let dsdt = match map_sdt(memory, info.dsdt_address, TableSignature::Dsdt) {
        Ok(dsdt) => dsdt,
        Err(error) => return Err(error),
    };
    let (sleep_type_a, sleep_type_b) = match parse_s5_package(dsdt) {
        Ok(types) => types,
        Err(error) => return Err(error),
    };
    Ok(AcpiShutdown {
        pm1a_control_block: info.pm1a_control_block,
        pm1b_control_block: info.pm1b_control_block,
        sleep_type_a,
        sleep_type_b,
    })
}

/// How the kernel can switch the machine off.
#[derive(Clone, Copy, Debug, PartialEq, Eq, Structural)]
pub enum PowerBackend {
    Uninitialized,
    AcpiSoftOff(AcpiShutdown),
    Unavailable(PowerError),
}

/// Sets up shutdown support from the ACPI tables at `rsdp_address`.
pub fn init(memory: &PhysicalMemory, rsdp_address: u64) -> (r: PowerBackend)
    requires
        memory.wf(),
    ensures
        r == match spec_discover(*memory, rsdp_address) {
            Ok(shutdown) => PowerBackend::AcpiSoftOff(shutdown),
            Err(error) => PowerBackend::Unavailable(error),
        },
{
    match discover_acpi_shutdown(memory, rsdp_address) {
        Ok(shutdown) => PowerBackend::AcpiSoftOff(shutdown),
        Err(error) => PowerBackend::Unavailable(error),
    }
}

/// What a shutdown request does: write the soft-off commands (and, should
/// the machine still run, report that the firmware ignored them), or report
/// why it cannot power off. Either way the kernel halts afterwards.
#[derive(Clone, Copy, Debug, PartialEq, Eq, Structural)]
pub enum ShutdownPlan {
    PowerOff { pm1a: PortWrite, pm1b: Option<PortWrite> },
    Halt,
}

/// The message printed when the machine did not switch off.
pub open spec fn shutdown_message(backend: PowerBackend) -> Seq<char> {
    match backend {
        PowerBackend::AcpiSoftOff(_) => "firmware did not power off the machine"@,
        PowerBackend::Unavailable(error) => power_error_message(error),
        PowerBackend::Uninitialized => "power subsystem was not initialized"@,
    }
}

/// Plans a shutdown for `backend`.
pub fn shutdown(backend: PowerBackend) -> (r: (ShutdownPlan, &'static str))
    ensures
        r.1@ == shutdown_message(backend),
        match backend {
            PowerBackend::AcpiSoftOff(off) => r.0 is PowerOff
                && r.0->pm1a == (PortWrite { port: off.pm1a_control_block, value: spec_sleep_command(off.sleep_type_a) })
                && r.0->pm1b == match off.pm1b_control_block {
                    Some(port) => Some(PortWrite { port, value: spec_sleep_command(off.sleep_type_b) }),
                    None => None,
                },
            _ => r.0 == ShutdownPlan::Halt,
        },
{
    match backend {
        PowerBackend::AcpiSoftOff(off) => {
            let (pm1a, pm1b) = off.commands();
            (ShutdownPlan::PowerOff { pm1a, pm1b }, "firmware did not power off the machine")
        },
        PowerBackend::Unavailable(error) => (ShutdownPlan::Halt, error.as_str()),
        PowerBackend::Uninitialized => (ShutdownPlan::Halt, "power subsystem was not initialized"),
    }
}

} // verus!
