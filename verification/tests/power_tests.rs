use lazers::power::{
    checksum, parse_fadt, parse_rsdp, parse_s5_package, shutdown, AcpiShutdown, PowerBackend, PowerError,
    RootTable, RootTableKind, ShutdownPlan, AML_BYTE_PREFIX, AML_NAME_OP, AML_PACKAGE_OP, FADT_DSDT_OFFSET,
    FADT_PM1_CONTROL_LENGTH_OFFSET, FADT_X_DSDT_OFFSET, FADT_X_PM1A_CONTROL_BLOCK_OFFSET, GAS_LENGTH,
    GAS_SPACE_ID_SYSTEM_IO, RSDP_V1_LENGTH, RSDP_V2_LENGTH, SDT_HEADER_LENGTH,
};

const FADT_SIGNATURE: &[u8; 4] = b"FACP";
const DSDT_SIGNATURE: &[u8; 4] = b"DSDT";

fn write_sdt_header(bytes: &mut [u8], signature: &[u8; 4]) {
    let length = bytes.len() as u32;
    bytes[..4].copy_from_slice(signature);
    bytes[4..8].copy_from_slice(&length.to_le_bytes());
    bytes[8] = 1;
}

fn write_gas(bytes: &mut [u8], address: u16) {
    bytes[0] = GAS_SPACE_ID_SYSTEM_IO;
    bytes[1] = 16;
    bytes[4..12].copy_from_slice(&(address as u64).to_le_bytes());
}

fn finalize_sdt_checksum(bytes: &mut [u8]) {
    bytes[9] = 0;
    let sum = checksum(bytes, bytes.len());
    bytes[9] = bytes[9].wrapping_sub(sum);
}

fn finalize_rsdp_checksum(bytes: &mut [u8; RSDP_V2_LENGTH]) {
    bytes[8] = 0;
    let sum_v1 = checksum(bytes, RSDP_V1_LENGTH);
    bytes[8] = bytes[8].wrapping_sub(sum_v1);

    bytes[32] = 0;
    let sum_v2 = checksum(bytes, RSDP_V2_LENGTH);
    bytes[32] = bytes[32].wrapping_sub(sum_v2);
}

#[test]
fn parse_rsdp_prefers_xsdt_when_available() {
    let mut rsdp = [0u8; RSDP_V2_LENGTH];
    rsdp[..8].copy_from_slice(b"RSD PTR ");
    rsdp[15] = 2;
    rsdp[16..20].copy_from_slice(&(0x1234u32).to_le_bytes());
    rsdp[20..24].copy_from_slice(&(RSDP_V2_LENGTH as u32).to_le_bytes());
    rsdp[24..32].copy_from_slice(&(0x8877_6655_4433_2211u64).to_le_bytes());
    finalize_rsdp_checksum(&mut rsdp);

    assert_eq!(
        parse_rsdp(&rsdp).unwrap(),
        RootTable { kind: RootTableKind::Xsdt, address: 0x8877_6655_4433_2211 }
    );
}

#[test]
fn parse_rsdp_falls_back_to_rsdt() {
    let mut rsdp = [0u8; RSDP_V2_LENGTH];
    rsdp[..8].copy_from_slice(b"RSD PTR ");
    rsdp[15] = 0;
    rsdp[16..20].copy_from_slice(&(0x4321u32).to_le_bytes());
    finalize_rsdp_checksum(&mut rsdp);

    assert_eq!(parse_rsdp(&rsdp).unwrap(), RootTable { kind: RootTableKind::Rsdt, address: 0x4321 });
}

#[test]
fn parse_fadt_prefers_extended_system_io_control_blocks() {
    let mut fadt = vec![0u8; 196];
    write_sdt_header(&mut fadt, FADT_SIGNATURE);
    fadt[FADT_PM1_CONTROL_LENGTH_OFFSET] = 2;
    fadt[FADT_DSDT_OFFSET..FADT_DSDT_OFFSET + 4].copy_from_slice(&(0x1000u32).to_le_bytes());
    fadt[FADT_X_DSDT_OFFSET..FADT_X_DSDT_OFFSET + 8].copy_from_slice(&(0x2000u64).to_le_bytes());
    write_gas(
        &mut fadt[FADT_X_PM1A_CONTROL_BLOCK_OFFSET..FADT_X_PM1A_CONTROL_BLOCK_OFFSET + GAS_LENGTH],
        0x604,
    );
    finalize_sdt_checksum(&mut fadt);

    let info = parse_fadt(&fadt).unwrap();
    assert_eq!(info.dsdt_address, 0x2000);
    assert_eq!(info.pm1a_control_block, 0x604);
    assert_eq!(info.pm1b_control_block, None);
}

#[test]
fn parse_s5_package_reads_shutdown_sleep_types() {
    let mut dsdt = vec![0u8; SDT_HEADER_LENGTH + 16];
    write_sdt_header(&mut dsdt, DSDT_SIGNATURE);
    let aml = &mut dsdt[SDT_HEADER_LENGTH..];
    aml[..10].copy_from_slice(&[
        AML_NAME_OP, b'_', b'S', b'5', b'_', AML_PACKAGE_OP, 0x06, 0x02, AML_BYTE_PREFIX, 0x05,
    ]);
    aml[10..12].copy_from_slice(&[AML_BYTE_PREFIX, 0x05]);
    finalize_sdt_checksum(&mut dsdt);

    assert_eq!(parse_s5_package(&dsdt).unwrap(), (5, 5));
}

#[test]
fn parse_s5_package_rejects_missing_definition() {
    let mut dsdt = vec![0u8; SDT_HEADER_LENGTH + 8];
    write_sdt_header(&mut dsdt, DSDT_SIGNATURE);
    finalize_sdt_checksum(&mut dsdt);

    assert_eq!(parse_s5_package(&dsdt), Err(PowerError::MissingS5Package));
}

#[test]
fn parse_rsdp_rejects_bad_checksum() {
    let mut rsdp = [0u8; RSDP_V2_LENGTH];
    rsdp[..8].copy_from_slice(b"RSD PTR ");
    rsdp[16..20].copy_from_slice(&(0x4321u32).to_le_bytes());
    finalize_rsdp_checksum(&mut rsdp);
    rsdp[10] = rsdp[10].wrapping_add(1);
    assert_eq!(parse_rsdp(&rsdp), Err(PowerError::InvalidRsdp));
}

#[test]
fn parse_fadt_rejects_wrong_signature() {
    let mut fadt = vec![0u8; 196];
    write_sdt_header(&mut fadt, DSDT_SIGNATURE);
    finalize_sdt_checksum(&mut fadt);
    assert_eq!(parse_fadt(&fadt), Err(PowerError::InvalidFadt));
}

#[test]
fn shutdown_writes_sleep_type_with_enable_bit() {
    let off = AcpiShutdown { pm1a_control_block: 0x604, pm1b_control_block: None, sleep_type_a: 5, sleep_type_b: 0 };
    let (plan, message) = shutdown(PowerBackend::AcpiSoftOff(off));
    match plan {
        ShutdownPlan::PowerOff { pm1a, pm1b } => {
            assert_eq!(pm1a.port, 0x604);
            assert_eq!(pm1a.value, (5 << 10) | 0x2000);
            assert!(pm1b.is_none());
        }
        ShutdownPlan::Halt => panic!("expected a power-off plan"),
    }
    assert_eq!(message, "firmware did not power off the machine");
    let (plan, message) = shutdown(PowerBackend::Unavailable(PowerError::MissingFadt));
    assert_eq!(plan, ShutdownPlan::Halt);
    assert_eq!(message, "ACPI FADT table was not found");
}
