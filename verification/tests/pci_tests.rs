use lazers::pci::{config_address, enable_memory_bus_mastering, find_ahci_controller, read_u16, read_u8, PciConfigSnapshot, PciDeviceLocation};

const FUNCTIONS: usize = 65536;

fn empty_space() -> Vec<u32> {
    let mut registers = vec![0u32; FUNCTIONS * 4];
    for index in 0..FUNCTIONS {
        registers[index * 4] = 0xffff_ffff;
    }
    registers
}

fn index_of(bus: usize, slot: usize, function: usize) -> usize {
    bus * 256 + slot * 8 + function
}

fn set_function(registers: &mut [u32], index: usize, class_reg: u32, header: u32, bar5: u32) {
    registers[index * 4] = 0x2922_8086;
    registers[index * 4 + 1] = class_reg;
    registers[index * 4 + 2] = header;
    registers[index * 4 + 3] = bar5;
}

#[test]
fn finds_first_ahci_controller() {
    let mut registers = empty_space();
    set_function(&mut registers, index_of(0, 3, 0), 0x0300_0000, 0, 0);
    set_function(&mut registers, index_of(0, 31, 0), 0x0106_0101, 0, 0xfebf_1004);
    set_function(&mut registers, index_of(2, 0, 0), 0x0106_0101, 0, 0xfe00_0000);
    let space = PciConfigSnapshot::new(registers).unwrap();
    let info = find_ahci_controller(&space).unwrap();
    assert_eq!(info.location, PciDeviceLocation { bus: 0, slot: 31, function: 0 });
    assert_eq!(info.abar, 0xfebf_1000);
}

#[test]
fn skips_controllers_without_memory_base() {
    let mut registers = empty_space();
    set_function(&mut registers, index_of(0, 1, 0), 0x0106_0101, 0, 0x0000_000f);
    set_function(&mut registers, index_of(1, 2, 0), 0x0106_0101, 0, 0x1000_0000);
    let space = PciConfigSnapshot::new(registers).unwrap();
    let info = find_ahci_controller(&space).unwrap();
    assert_eq!(info.location, PciDeviceLocation { bus: 1, slot: 2, function: 0 });
}

#[test]
fn later_functions_only_count_for_multifunction_devices() {
    let mut registers = empty_space();
    // function 2 of a single-function device is not scanned
    set_function(&mut registers, index_of(0, 4, 0), 0x0600_0000, 0, 0);
    set_function(&mut registers, index_of(0, 4, 2), 0x0106_0101, 0, 0x2000_0000);
    let space = PciConfigSnapshot::new(registers.clone()).unwrap();
    assert!(find_ahci_controller(&space).is_none());
    // with the multifunction bit in the low byte of 0x0c it is
    registers[index_of(0, 4, 0) * 4 + 2] = 0x80;
    let space = PciConfigSnapshot::new(registers).unwrap();
    let info = find_ahci_controller(&space).unwrap();
    assert_eq!(info.location, PciDeviceLocation { bus: 0, slot: 4, function: 2 });
}

#[test]
fn snapshot_needs_every_function() {
    assert!(PciConfigSnapshot::new(vec![0; 16]).is_none());
}

#[test]
fn byte_and_word_reads_pick_the_lanes() {
    assert_eq!(read_u8(0x4433_2211, 0x0c), 0x11);
    assert_eq!(read_u8(0x4433_2211, 0x0e), 0x33);
    assert_eq!(read_u16(0x4433_2211, 0x00), 0x2211);
    assert_eq!(read_u16(0x4433_2211, 0x02), 0x4433);
}

#[test]
fn command_update_sets_memory_and_bus_master_bits() {
    assert_eq!(enable_memory_bus_mastering(0x0290_0001), 0x0290_0007);
    assert_eq!(enable_memory_bus_mastering(0xffff_fff9), 0xffff_ffff);
}

#[test]
fn config_address_selects_bus_slot_function_and_dword() {
    let location = PciDeviceLocation { bus: 1, slot: 2, function: 3 };
    assert_eq!(config_address(location, 0x27), 0x8001_1324);
    assert_eq!(config_address(PciDeviceLocation { bus: 0, slot: 0, function: 0 }, 0), 0x8000_0000);
}
