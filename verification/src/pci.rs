//! Discovery of the first AHCI controller in conventional PCI configuration
//! space, and the command-register update that lets it decode memory and
//! master the bus.
//!
//! The registers the discovery reads are taken as a snapshot: for every
//! bus, slot and function, the dwords at offsets 0x00 (vendor and device),
//! 0x08 (class code), 0x0c (cache line, latency, header type, BIST) and
//! 0x24 (BAR5), in that order.
use vstd::prelude::*;

verus! {

pub const PCI_BUSES: usize = 256;
pub const PCI_SLOTS: usize = 32;
pub const PCI_FUNCTIONS: usize = 8;
/// Functions in configuration space.
pub const PCI_FUNCTION_COUNT: usize = 65536;
/// Dwords of the snapshot kept per function.
pub const SNAPSHOT_REGISTERS: usize = 4;

pub const CLASS_MASS_STORAGE: u8 = 0x01;
pub const SUBCLASS_SATA: u8 = 0x06;
pub const PROG_IF_AHCI: u8 = 0x01;

pub const PCI_COMMAND_OFFSET: u8 = 0x04;
pub const PCI_CLASS_OFFSET: u8 = 0x08;
pub const PCI_HEADER_TYPE_OFFSET: u8 = 0x0c;
pub const PCI_BAR5_OFFSET: u8 = 0x24;

pub const PCI_COMMAND_MEMORY_SPACE: u16 = 2;
pub const PCI_COMMAND_BUS_MASTER: u16 = 4;

/// Bus/device/function location of a PCI function.
#[derive(Clone, Copy, Debug, PartialEq, Eq, Structural)]
pub struct PciDeviceLocation {
    pub bus: u8,
    pub slot: u8,
    pub function: u8,
}

/// The configuration-address port value that selects the dword at `offset`
/// of a function: the enable bit, bus, slot and function, and the offset
/// rounded down to a dword.
pub open spec fn spec_config_address(location: PciDeviceLocation, offset: u8) -> u32 {
    0x8000_0000u32 | ((location.bus as u32) << 16u32) | ((location.slot as u32) << 11u32)
        | ((location.function as u32) << 8u32) | ((offset as u32) & 0xfcu32)
}

/// The configuration-address port value for the dword at `offset` of the
/// function at `location`.
pub fn config_address(location: PciDeviceLocation, offset: u8) -> (r: u32)
    ensures
        r == spec_config_address(location, offset),
{
    0x8000_0000u32 | ((location.bus as u32) << 16u32) | ((location.slot as u32) << 11u32)
        | ((location.function as u32) << 8u32) | ((offset as u32) & 0xfcu32)
}

/// AHCI controller metadata needed by the storage stack.
#[derive(Clone, Copy, Debug, PartialEq, Eq, Structural)]
pub struct AhciControllerInfo {
    pub location: PciDeviceLocation,
    pub abar: u64,
}

/// The configuration registers the discovery reads, for every function.
pub struct PciConfigSnapshot {
    registers: Vec<u32>,
}

/// The function at position `index` of the scan: buses, then slots, then
/// functions, in increasing order.
pub open spec fn location_at(index: int) -> PciDeviceLocation {
    PciDeviceLocation { bus: (index / 256) as u8, slot: ((index / 8) % 32) as u8, function: (index % 8) as u8 }
}

/// The byte at `offset` of configuration register dword `value`, read the
/// way a byte read at that offset is.
pub open spec fn dword_byte(value: u32, offset: u8) -> u8 {
    ((value >> (((offset % 4) * 8) as u32)) & 0xff) as u8
}

/// The word at `offset` of configuration register dword `value`.
pub open spec fn dword_word(value: u32, offset: u8) -> u16 {
    ((value >> ((((offset / 2) % 2) * 16) as u32)) & 0xffff) as u16
}

impl PciConfigSnapshot {
    /// The snapshot's dwords.
    pub closed spec fn spec_registers(&self) -> Seq<u32> {
        self.registers@
    }

    /// Register `which` (0 to 3: offsets 0x00, 0x08, 0x0c, 0x24) of the
    /// function at scan position `index`.
    pub open spec fn register(&self, index: int, which: int) -> u32 {
        self.spec_registers()[index * 4 + which]
    }

    pub open spec fn vendor(&self, index: int) -> u16 {
        dword_word(self.register(index, 0), 0x00)
    }

    /// Whether the first function of the device at `index` reports several
    /// functions, read from the low byte of the dword at 0x0c.
    pub open spec fn multifunction(&self, index: int) -> bool {
        dword_byte(self.register(index - index % 8, 2), PCI_HEADER_TYPE_OFFSET) & 0x80 != 0
    }

    /// The function at `index` is scanned: its device answers at function 0
    /// and it is function 0 or the device is multifunction, and it answers.
    pub open spec fn scanned(&self, index: int) -> bool {
        &&& self.vendor(index - index % 8) != 0xffff
        &&& (index % 8 == 0 || self.multifunction(index))
        &&& self.vendor(index) != 0xffff
    }

    /// The controller memory base a function's BAR5 gives.
    pub open spec fn abar(&self, index: int) -> u64 {
        (self.register(index, 3) as u64) & 0xffff_fff0
    }

    /// The function at `index` is a scanned AHCI controller with a memory
    /// base.
    pub open spec fn is_ahci(&self, index: int) -> bool {
        let class_reg = self.register(index, 1);
        &&& self.scanned(index)
        &&& (((class_reg >> 24u32) & 0xff) as u8) == CLASS_MASS_STORAGE
        &&& (((class_reg >> 16u32) & 0xff) as u8) == SUBCLASS_SATA
        &&& (((class_reg >> 8u32) & 0xff) as u8) == PROG_IF_AHCI
        &&& self.abar(index) != 0
    }

    /// A snapshot of `registers`, four dwords per function in scan order.
    pub fn new(registers: Vec<u32>) -> (r: Option<Self>)
        ensures
            r is Some <==> registers@.len() == PCI_FUNCTION_COUNT * SNAPSHOT_REGISTERS,
            r matches Some(s) ==> s.spec_registers() == registers@,
    {
        if registers.len() == PCI_FUNCTION_COUNT * SNAPSHOT_REGISTERS {
            Some(PciConfigSnapshot { registers })
        } else {
            None
        }
    }

    pub open spec fn wf(&self) -> bool {
        self.spec_registers().len() == PCI_FUNCTION_COUNT * SNAPSHOT_REGISTERS
    }

    fn register_at(&self, index: usize, which: usize) -> (r: u32)
        requires
            self.wf(),
            index < PCI_FUNCTION_COUNT,
            which < SNAPSHOT_REGISTERS,
        ensures
            r == self.register(index as int, which as int),
    {
        self.registers[index * 4 + which]
    }
}

/// Reads the byte at `offset` of a configuration dword.
pub fn read_u8(value: u32, offset: u8) -> (r: u8)
    ensures
        r == dword_byte(value, offset),
{
    let shift: u32 = ((offset % 4) as u32) * 8;
    ((value >> shift) & 0xff) as u8
}

/// Reads the word at `offset` of a configuration dword.
pub fn read_u16(value: u32, offset: u8) -> (r: u16)
    ensures
        r == dword_word(value, offset),
{
    let shift: u32 = (((offset / 2) % 2) as u32) * 16;
    ((value >> shift) & 0xffff) as u16
}

/// Scans configuration space, bus by bus, slot by slot and function by
/// function, for the first AHCI controller.
pub fn find_ahci_controller(space: &PciConfigSnapshot) -> (r: Option<AhciControllerInfo>)
    requires
        space.wf(),
    ensures
        match r {
            Some(info) => exists|i: int| {
                &&& 0 <= i < PCI_FUNCTION_COUNT
                &&& #[trigger] space.is_ahci(i)
                &&& forall|j: int| 0 <= j < i ==> !#[trigger] space.is_ahci(j)
                &&& info.location == location_at(i)
                &&& info.abar == space.abar(i)
            },
            None => forall|i: int| 0 <= i < PCI_FUNCTION_COUNT ==> !#[trigger] space.is_ahci(i),
        },
{
    let mut index: usize = 0;
    while index < PCI_FUNCTION_COUNT
        invariant
            space.wf(),
            index <= PCI_FUNCTION_COUNT,
            forall|j: int| 0 <= j < index ==> !#[trigger] space.is_ahci(j),
        decreases PCI_FUNCTION_COUNT - index,
    {
        let function = index % 8;
        let first = index - function;
        let vendor0 = read_u16(space.register_at(first, 0), 0x00);
        if vendor0 != 0xffff {
            let header = read_u8(space.register_at(first, 2), PCI_HEADER_TYPE_OFFSET) & 0x80;
            if function == 0 || header != 0 {
                let vendor = read_u16(space.register_at(index, 0), 0x00);
                if vendor != 0xffff {
                    let class_reg = space.register_at(index, 1);
                    let class = ((class_reg >> 24u32) & 0xff) as u8;
                    let subclass = ((class_reg >> 16u32) & 0xff) as u8;
                    let prog_if = ((class_reg >> 8u32) & 0xff) as u8;
                    if class == CLASS_MASS_STORAGE && subclass == SUBCLASS_SATA && prog_if == PROG_IF_AHCI {
                        let abar = space.register_at(index, 3) as u64 & 0xffff_fff0;
                        if abar != 0 {
                            let location = PciDeviceLocation {
                                bus: (index / 256) as u8,
                                slot: ((index / 8) % 32) as u8,
                                function: function as u8,
                            };
                            proof {
                                assert(space.is_ahci(index as int));
                            }
                            return Some(AhciControllerInfo { location, abar });
                        }
                    }
                }
            }
        }
        index += 1;
    }
    None
}

/// The command register dword with memory-space decoding and bus mastering
/// enabled, from the dword at offset 0x04.
pub open spec fn enabled_command(register: u32) -> u32 {
    register | ((PCI_COMMAND_MEMORY_SPACE | PCI_COMMAND_BUS_MASTER) as u32)
}

/// Enables memory-space decoding and bus mastering: given the dword at
/// offset 0x04 of the controller, returns the dword to write back there.
/// Only the two command bits change.
pub fn enable_memory_bus_mastering(register: u32) -> (r: u32)
    ensures
        r == enabled_command(register),
        r & 0x6 == 0x6,
        r & !0x6u32 == register & !0x6u32,
{
    let r = register | ((PCI_COMMAND_MEMORY_SPACE | PCI_COMMAND_BUS_MASTER) as u32);
    assert(r & 0x6 == 0x6 && r & !0x6u32 == register & !0x6u32) by (bit_vector)
        requires
            r == register | ((2u16 | 4u16) as u32),
    ;
    r
}

} // verus!
