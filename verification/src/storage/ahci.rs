//! The AHCI side of reading a disk sector: choosing the SATA port, the
//! command that reads one sector by DMA, and the polling decisions around
//! issuing it. The platform performs the register accesses and copies the
//! command structures into DMA memory; each step here says what to do next.
use vstd::prelude::*;

use crate::memory::allocator::no_free_page;

use crate::memory::kernel::{kernel_view_kept, same_layout, MemoryState};
use crate::memory::paging::{lemma_taken_earlier, lemma_taken_later, taken_page};
use crate::storage::block::SECTOR_SIZE;
use crate::storage::StorageError;

verus! {

pub const AHCI_MMIO_SIZE: usize = 0x1100;
pub const AHCI_GHC_AE: u32 = 0x8000_0000;
pub const AHCI_PORT_CMD_ST: u32 = 0x1;
pub const AHCI_PORT_CMD_FRE: u32 = 0x10;
pub const AHCI_PORT_CMD_FR: u32 = 0x4000;
pub const AHCI_PORT_CMD_CR: u32 = 0x8000;
pub const AHCI_PORT_TFD_BSY: u32 = 0x80;
pub const AHCI_PORT_TFD_DRQ: u32 = 0x8;
pub const AHCI_PORT_IS_TFES: u32 = 0x4000_0000;
pub const SATA_STATUS_DEVICE_PRESENT: u32 = 0x3;
pub const SATA_STATUS_INTERFACE_ACTIVE: u32 = 0x1;
pub const SATA_SIGNATURE_ATA: u32 = 0x0000_0101;
pub const ATA_COMMAND_READ_DMA_EXT: u8 = 0x25;
pub const FIS_TYPE_REG_H2D: u8 = 0x27;
/// Polls of a register before a wait gives up.
pub const MAX_SPINS: usize = 1_000_000;
/// Bytes of a host-to-device register FIS.
pub const FIS_LENGTH: usize = 20;
/// Ports an HBA can implement.
pub const MAX_PORTS: usize = 32;

/// Whether a port with these status and signature registers has a SATA disk
/// attached: a device present with the interface active, and an ATA
/// signature.
pub open spec fn spec_port_is_sata_disk(sata_status: u32, signature: u32) -> bool {
    &&& sata_status & 0x0f == SATA_STATUS_DEVICE_PRESENT
    &&& (sata_status >> 8u32) & 0x0f == SATA_STATUS_INTERFACE_ACTIVE
    &&& signature == SATA_SIGNATURE_ATA
}

pub fn port_is_sata_disk(sata_status: u32, signature: u32) -> (r: bool)
    ensures
        r == spec_port_is_sata_disk(sata_status, signature),
{
    let device_detection = sata_status & 0x0f;
    let interface_power = (sata_status >> 8u32) & 0x0f;
    device_detection == SATA_STATUS_DEVICE_PRESENT && interface_power == SATA_STATUS_INTERFACE_ACTIVE
        && signature == SATA_SIGNATURE_ATA
}

/// Port `i` is implemented and has a SATA disk.
pub open spec fn usable_port(ports_implemented: u32, sata_status: Seq<u32>, signatures: Seq<u32>, i: int) -> bool {
    &&& (ports_implemented >> (i as u32)) & 1 == 1
    &&& spec_port_is_sata_disk(sata_status[i], signatures[i])
}

/// The first implemented port with a SATA disk, given every port's status
/// and signature registers.
pub fn first_sata_port(ports_implemented: u32, sata_status: &[u32], signatures: &[u32]) -> (r: Option<usize>)
    requires
        sata_status@.len() == MAX_PORTS,
        signatures@.len() == MAX_PORTS,
    ensures
        match r {
            Some(i) => i < MAX_PORTS && usable_port(ports_implemented, sata_status@, signatures@, i as int)
                && forall|j: int| 0 <= j < i ==> !#[trigger] usable_port(ports_implemented, sata_status@, signatures@, j),
            None => forall|j: int| 0 <= j < MAX_PORTS ==> !#[trigger] usable_port(ports_implemented, sata_status@, signatures@, j),
        },
{
    let mut port: usize = 0;
    while port < MAX_PORTS
        invariant
            port <= MAX_PORTS,
            sata_status@.len() == MAX_PORTS,
            signatures@.len() == MAX_PORTS,
            forall|j: int| 0 <= j < port ==> !#[trigger] usable_port(ports_implemented, sata_status@, signatures@, j),
        decreases MAX_PORTS - port,
    {
        if (ports_implemented >> (port as u32)) & 1 == 1 && port_is_sata_disk(sata_status[port], signatures[port]) {
            return Some(port);
        }
        port += 1;
    }
    None
}

/// The task-file register says the device is neither busy nor waiting for
/// data.
pub open spec fn spec_device_ready(task_file: u32) -> bool {
    task_file & (AHCI_PORT_TFD_BSY | AHCI_PORT_TFD_DRQ) == 0
}

/// The command register says the port's command and FIS engines stopped.
pub open spec fn spec_port_stopped(command: u32) -> bool {
    command & (AHCI_PORT_CMD_CR | AHCI_PORT_CMD_FR) == 0
}

/// The command register value that stops a port: start and FIS receive
/// cleared.
pub fn stop_command(command: u32) -> (r: u32)
    ensures
        r == command & !(AHCI_PORT_CMD_ST | AHCI_PORT_CMD_FRE),
{
    command & !(AHCI_PORT_CMD_ST | AHCI_PORT_CMD_FRE)
}

/// The command register value that starts a port: FIS receive and start
/// set.
pub fn start_command(command: u32) -> (r: u32)
    ensures
        r == command | AHCI_PORT_CMD_FRE | AHCI_PORT_CMD_ST,
{
    command | AHCI_PORT_CMD_FRE | AHCI_PORT_CMD_ST
}

/// The global host control value that turns AHCI mode on.
pub fn ahci_mode_control(ghc: u32) -> (r: u32)
    ensures
        r == ghc | AHCI_GHC_AE,
{
    ghc | AHCI_GHC_AE
}

/// Whether a stopping port has stopped.
pub fn port_stopped(command: u32) -> (r: bool)
    ensures
        r == spec_port_stopped(command),
{
    command & (AHCI_PORT_CMD_CR | AHCI_PORT_CMD_FR) == 0
}

/// What to do after one look at the command register of a stopping port.
#[derive(Clone, Copy, Debug, PartialEq, Eq, Structural)]
pub enum PortStopStep {
    /// The port stopped.
    Stopped,
    /// Read the command register again and pass it on.
    Poll,
    /// The port did not stop in time.
    TimedOut,
}

/// A wait for a port to stop, counting the looks that found it running.
pub struct PortStop {
    pub spins: usize,
}

impl PortStop {
    /// A wait that has not looked yet.
    pub fn new() -> (r: Self)
        ensures
            r.spins == 0,
    {
        PortStop { spins: 0 }
    }

    /// Takes the command register just read: stopped, or poll again, or
    /// time out once more than `MAX_SPINS` looks found the port running.
    pub fn poll(&mut self, command: u32) -> (r: PortStopStep)
        requires
            old(self).spins <= MAX_SPINS,
        ensures
            final(self).spins <= MAX_SPINS,
            spec_port_stopped(command) ==> r == PortStopStep::Stopped && final(self).spins == old(self).spins,
            !spec_port_stopped(command) && old(self).spins + 1 > MAX_SPINS ==> r == PortStopStep::TimedOut
                && final(self).spins == old(self).spins,
            !spec_port_stopped(command) && old(self).spins + 1 <= MAX_SPINS ==> r == PortStopStep::Poll
                && final(self).spins == old(self).spins + 1,
    {
        if port_stopped(command) {
            return PortStopStep::Stopped;
        }
        if self.spins >= MAX_SPINS {
            return PortStopStep::TimedOut;
        }
        self.spins = self.spins + 1;
        PortStopStep::Poll
    }
}

/// The command that reads one sector by DMA: the register FIS, and the
/// command header and region descriptor that point at the command table and
/// the DMA buffer.
pub struct ReadCommand {
    pub fis: Vec<u8>,
    pub command_fis_length: u8,
    pub prdt_length: u16,
    pub command_table_base: u32,
    pub command_table_base_upper: u32,
    pub data_base: u32,
    pub data_base_upper: u32,
    pub byte_count: u32,
}

/// The logical block address a READ DMA EXT FIS names.
pub open spec fn fis_lba(fis: Seq<u8>) -> int {
    fis[4] + fis[5] * 0x100 + fis[6] * 0x1_0000 + fis[8] * 0x100_0000 + fis[9] * 0x1_0000_0000
        + fis[10] * 0x100_0000_0000
}

/// The 48-bit address the FIS can carry.
pub open spec fn lba48(lba: u64) -> int {
    lba as int % 0x1_0000_0000_0000
}

/// `cmd` reads sector `lba` by READ DMA EXT into the DMA buffer at
/// `dma_buffer_paddr`, with its command table at `command_table_paddr`: one
/// region descriptor of a sector's bytes.
pub open spec fn is_read_command(cmd: ReadCommand, lba: u64, command_table_paddr: u64, dma_buffer_paddr: u64) -> bool {
    &&& cmd.fis@.len() == FIS_LENGTH
    &&& cmd.fis@[0] == FIS_TYPE_REG_H2D
    &&& cmd.fis@[1] == 0x80
    &&& cmd.fis@[2] == ATA_COMMAND_READ_DMA_EXT
    &&& cmd.fis@[7] == 0x40
    &&& cmd.fis@[12] == 1 && cmd.fis@[13] == 0
    &&& cmd.fis@[3] == 0 && cmd.fis@[11] == 0
    &&& forall|i: int| 14 <= i < FIS_LENGTH ==> #[trigger] cmd.fis@[i] == 0
    &&& fis_lba(cmd.fis@) == lba48(lba)
    &&& cmd.command_fis_length == FIS_LENGTH / 4
    &&& cmd.prdt_length == 1
    &&& cmd.command_table_base as int + cmd.command_table_base_upper as int * 0x1_0000_0000 == command_table_paddr
    &&& cmd.data_base as int + cmd.data_base_upper as int * 0x1_0000_0000 == dma_buffer_paddr
    &&& cmd.byte_count == SECTOR_SIZE - 1
}

/// Builds the command that reads sector `lba` into the DMA buffer at
/// `dma_buffer_paddr`, with the command table at `command_table_paddr`.
pub fn read_command(lba: u64, command_table_paddr: u64, dma_buffer_paddr: u64) -> (r: ReadCommand)
    ensures
        is_read_command(r, lba, command_table_paddr, dma_buffer_paddr),
{
    let b0 = (lba & 0xff) as u8;
    let b1 = ((lba >> 8u64) & 0xff) as u8;
    let b2 = ((lba >> 16u64) & 0xff) as u8;
    let b3 = ((lba >> 24u64) & 0xff) as u8;
    let b4 = ((lba >> 32u64) & 0xff) as u8;
    let b5 = ((lba >> 40u64) & 0xff) as u8;
    assert(b0 + b1 * 0x100 + b2 * 0x1_0000 + b3 * 0x100_0000 + b4 * 0x1_0000_0000 + b5 * 0x100_0000_0000
        == lba % 0x1_0000_0000_0000) by (bit_vector)
        requires
            b0 == (lba & 0xff) as u8,
            b1 == ((lba >> 8u64) & 0xff) as u8,
            b2 == ((lba >> 16u64) & 0xff) as u8,
            b3 == ((lba >> 24u64) & 0xff) as u8,
            b4 == ((lba >> 32u64) & 0xff) as u8,
            b5 == ((lba >> 40u64) & 0xff) as u8,
    ;
    let mut fis: Vec<u8> = Vec::new();
    fis.push(FIS_TYPE_REG_H2D);
    fis.push(0x80);
    fis.push(ATA_COMMAND_READ_DMA_EXT);
    fis.push(0);
    fis.push(b0);
    fis.push(b1);
    fis.push(b2);
    fis.push(0x40);
    fis.push(b3);
    fis.push(b4);
    fis.push(b5);
    fis.push(0);
    fis.push(1);
    fis.push(0);
    while fis.len() < FIS_LENGTH
        invariant
            14 <= fis@.len() <= FIS_LENGTH,
            fis@[0] == FIS_TYPE_REG_H2D && fis@[1] == 0x80 && fis@[2] == ATA_COMMAND_READ_DMA_EXT && fis@[3] == 0,
            fis@[4] == b0 && fis@[5] == b1 && fis@[6] == b2 && fis@[7] == 0x40,
            fis@[8] == b3 && fis@[9] == b4 && fis@[10] == b5 && fis@[11] == 0,
            fis@[12] == 1 && fis@[13] == 0,
            forall|i: int| 14 <= i < fis@.len() ==> #[trigger] fis@[i] == 0,
        decreases FIS_LENGTH - fis@.len(),
    {
        fis.push(0);
    }
    let command_table_base = (command_table_paddr & 0xffff_ffff) as u32;
    let command_table_base_upper = (command_table_paddr >> 32u64) as u32;
    let data_base = (dma_buffer_paddr & 0xffff_ffff) as u32;
    let data_base_upper = (dma_buffer_paddr >> 32u64) as u32;
    assert(command_table_base as int + command_table_base_upper as int * 0x1_0000_0000 == command_table_paddr
        && data_base as int + data_base_upper as int * 0x1_0000_0000 == dma_buffer_paddr) by (bit_vector)
        requires
            command_table_base == (command_table_paddr & 0xffff_ffff) as u32,
            command_table_base_upper == (command_table_paddr >> 32u64) as u32,
            data_base == (dma_buffer_paddr & 0xffff_ffff) as u32,
            data_base_upper == (dma_buffer_paddr >> 32u64) as u32,
    ;
    ReadCommand {
        fis,
        command_fis_length: (FIS_LENGTH / 4) as u8,
        prdt_length: 1,
        command_table_base,
        command_table_base_upper,
        data_base,
        data_base_upper,
        byte_count: (SECTOR_SIZE as u32) - 1,
    }
}

/// An initialized controller: its registers, the chosen port, and the
/// pages of its command list, received FISes, command table and DMA buffer.
#[derive(Clone, Copy, Debug, PartialEq, Eq, Structural)]
pub struct AhciController {
    pub abar: u64,
    pub port_index: usize,
    pub command_list_paddr: u64,
    pub fis_paddr: u64,
    pub command_table_paddr: u64,
    pub dma_buffer_paddr: u64,
}

/// What the platform does next while a sector is read.
pub enum SectorReadStep {
    /// Read the port's task-file register and pass it on.
    ReadTaskFile,
    /// Clear the port's interrupt status, put the command into the DMA
    /// pages, issue slot 0, then read the interrupt status and pass it on.
    Submit(ReadCommand),
    /// Read the port's interrupt status and pass it on.
    ReadInterruptStatus,
    /// Read the port's command-issue register and pass it on.
    ReadCommandIssue,
    /// The sector is in the DMA buffer: copy it out.
    CopyDmaBuffer,
    /// The read failed.
    Failed(StorageError),
}

/// Where a sector read stands: waiting for the device, or for the command
/// to complete.
#[derive(Clone, Copy, Debug, PartialEq, Eq, Structural)]
pub enum ReadPhase {
    /// The last request was the task-file register.
    AwaitReady,
    /// The last request was the interrupt status.
    AwaitStatus,
    /// The last request was the command-issue register.
    AwaitIssue,
    /// Nothing more to do.
    Finished,
}

/// A sector read in progress.
pub struct SectorRead {
    pub lba: u64,
    pub phase: ReadPhase,
    /// Polls of the current wait so far.
    pub spins: usize,
}

impl AhciController {
    /// Sets up a controller at `abar`: four zeroed kernel pages for its
    /// command list, received FISes, command table and DMA buffer, and the
    /// first implemented port with a SATA disk, from the port registers the
    /// platform read. The platform then turns AHCI mode on and restarts the
    /// port with those pages.
    pub fn initialize(
        memory: &mut MemoryState,
        abar: u64,
        ports_implemented: u32,
        sata_status: &[u32],
        signatures: &[u32],
    ) -> (r: Result<AhciController, StorageError>)
        requires
            old(memory).wf(),
            sata_status@.len() == MAX_PORTS,
            signatures@.len() == MAX_PORTS,
        ensures
            final(memory).wf(),
            same_layout(*final(memory), *old(memory)),
            kernel_view_kept(*final(memory), *old(memory)),
            match r {
                Ok(controller) => {
                    &&& controller.abar == abar
                    &&& controller.port_index < MAX_PORTS
                    &&& usable_port(ports_implemented, sata_status@, signatures@, controller.port_index as int)
                    &&& forall|j: int| 0 <= j < controller.port_index ==> !#[trigger] usable_port(ports_implemented, sata_status@, signatures@, j)
                    &&& taken_page(controller.command_list_paddr, old(memory).allocator, final(memory).allocator)
                    &&& taken_page(controller.fis_paddr, old(memory).allocator, final(memory).allocator)
                    &&& taken_page(controller.command_table_paddr, old(memory).allocator, final(memory).allocator)
                    &&& taken_page(controller.dma_buffer_paddr, old(memory).allocator, final(memory).allocator)
                },
                Err(StorageError::AhciPortNotFound) => forall|j: int| 0 <= j < MAX_PORTS
                    ==> !#[trigger] usable_port(ports_implemented, sata_status@, signatures@, j),
                Err(error) => error == StorageError::Memory(crate::memory::types::MemoryError::AllocatorExhausted)
                    && no_free_page(final(memory).allocator),
            },
    {
        let ghost a0 = memory.allocator;
        let command_list_paddr = match memory.allocate_kernel_page() {
            Ok(page) => page,
            Err(error) => return Err(StorageError::Memory(error)),
        };
        let ghost a1 = memory.allocator;
        let fis_paddr = match memory.allocate_kernel_page() {
            Ok(page) => page,
            Err(error) => return Err(StorageError::Memory(error)),
        };
        let ghost a2 = memory.allocator;
        let command_table_paddr = match memory.allocate_kernel_page() {
            Ok(page) => page,
            Err(error) => return Err(StorageError::Memory(error)),
        };
        let ghost a3 = memory.allocator;
        let dma_buffer_paddr = match memory.allocate_kernel_page() {
            Ok(page) => page,
            Err(error) => return Err(StorageError::Memory(error)),
        };
        let ghost a4 = memory.allocator;
        proof {
            assert(taken_page(command_list_paddr, a0, a1));
            assert(taken_page(fis_paddr, a1, a2));
            assert(taken_page(command_table_paddr, a2, a3));
            assert(taken_page(dma_buffer_paddr, a3, a4));
            lemma_taken_later(command_list_paddr, a0, a1, a2);
            lemma_taken_later(command_list_paddr, a0, a2, a3);
            lemma_taken_later(command_list_paddr, a0, a3, a4);
            lemma_taken_earlier(fis_paddr, a0, a1, a2);
            lemma_taken_later(fis_paddr, a0, a2, a3);
            lemma_taken_later(fis_paddr, a0, a3, a4);
            lemma_taken_earlier(command_table_paddr, a1, a2, a3);
            lemma_taken_earlier(command_table_paddr, a0, a1, a3);
            lemma_taken_later(command_table_paddr, a0, a3, a4);
            lemma_taken_earlier(dma_buffer_paddr, a2, a3, a4);
            lemma_taken_earlier(dma_buffer_paddr, a1, a2, a4);
            lemma_taken_earlier(dma_buffer_paddr, a0, a1, a4);
        }
        match first_sata_port(ports_implemented, sata_status, signatures) {
            Some(port_index) => Ok(AhciController {
                abar,
                port_index,
                command_list_paddr,
                fis_paddr,
                command_table_paddr,
                dma_buffer_paddr,
            }),
            None => Err(StorageError::AhciPortNotFound),
        }
    }

    /// Starts reading sector `lba`: the first step asks for the task-file
    /// register.
    pub fn read_sector(&self, lba: u64) -> (r: (SectorRead, SectorReadStep))
        ensures
            r.0.lba == lba,
            r.0.phase == ReadPhase::AwaitReady,
            r.0.spins == 0,
            r.1 is ReadTaskFile,
    {
        (SectorRead { lba, phase: ReadPhase::AwaitReady, spins: 0 }, SectorReadStep::ReadTaskFile)
    }
}

impl SectorRead {
    /// Takes the register value the last step asked for and says what to do
    /// next. A wait that polls more than `MAX_SPINS` times fails with a
    /// timeout; a task-file error in the interrupt status fails the read.
    pub fn resume(&mut self, controller: &AhciController, reply: u32) -> (r: SectorReadStep)
        requires
            old(self).phase != ReadPhase::Finished,
            old(self).spins <= MAX_SPINS,
        ensures
            final(self).lba == old(self).lba,
            final(self).spins <= MAX_SPINS,
            match old(self).phase {
                ReadPhase::AwaitReady => if spec_device_ready(reply) {
                    &&& final(self).phase == ReadPhase::AwaitStatus && final(self).spins == 0
                    &&& r matches SectorReadStep::Submit(command)
                        && is_read_command(command, old(self).lba, controller.command_table_paddr, controller.dma_buffer_paddr)
                } else if old(self).spins + 1 > MAX_SPINS {
                    final(self).phase == ReadPhase::Finished && r == SectorReadStep::Failed(StorageError::AhciCommandTimeout)
                } else {
                    final(self).phase == ReadPhase::AwaitReady && final(self).spins == old(self).spins + 1
                        && r is ReadTaskFile
                },
                ReadPhase::AwaitStatus => if reply & AHCI_PORT_IS_TFES != 0 {
                    final(self).phase == ReadPhase::Finished && r == SectorReadStep::Failed(StorageError::AhciTaskFileError)
                } else {
                    final(self).phase == ReadPhase::AwaitIssue && final(self).spins == old(self).spins
                        && r is ReadCommandIssue
                },
                ReadPhase::AwaitIssue => if reply & 1 == 0 {
                    final(self).phase == ReadPhase::Finished && r is CopyDmaBuffer
                } else if old(self).spins + 1 > MAX_SPINS {
                    final(self).phase == ReadPhase::Finished && r == SectorReadStep::Failed(StorageError::AhciCommandTimeout)
                } else {
                    final(self).phase == ReadPhase::AwaitStatus && final(self).spins == old(self).spins + 1
                        && r is ReadInterruptStatus
                },
                ReadPhase::Finished => false,
            },
    {
        match self.phase {
            ReadPhase::AwaitReady => {
                if reply & (AHCI_PORT_TFD_BSY | AHCI_PORT_TFD_DRQ) == 0 {
                    self.phase = ReadPhase::AwaitStatus;
                    self.spins = 0;
                    SectorReadStep::Submit(read_command(self.lba, controller.command_table_paddr, controller.dma_buffer_paddr))
                } else if self.spins >= MAX_SPINS {
                    self.phase = ReadPhase::Finished;
                    SectorReadStep::Failed(StorageError::AhciCommandTimeout)
                } else {
                    self.spins = self.spins + 1;
                    SectorReadStep::ReadTaskFile
                }
            },
            ReadPhase::AwaitStatus => {
                if reply & AHCI_PORT_IS_TFES != 0 {
                    self.phase = ReadPhase::Finished;
                    SectorReadStep::Failed(StorageError::AhciTaskFileError)
                } else {
                    self.phase = ReadPhase::AwaitIssue;
                    SectorReadStep::ReadCommandIssue
                }
            },
            ReadPhase::AwaitIssue => {
                if reply & 1 == 0 {
                    self.phase = ReadPhase::Finished;
                    SectorReadStep::CopyDmaBuffer
                } else if self.spins >= MAX_SPINS {
                    self.phase = ReadPhase::Finished;
                    SectorReadStep::Failed(StorageError::AhciCommandTimeout)
                } else {
                    self.spins = self.spins + 1;
                    self.phase = ReadPhase::AwaitStatus;
                    SectorReadStep::ReadInterruptStatus
                }
            },
            ReadPhase::Finished => SectorReadStep::Failed(StorageError::AhciCommandTimeout),
        }
    }
}

} // verus!
