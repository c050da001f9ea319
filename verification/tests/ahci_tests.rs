use lazers::memory::kernel::{MemoryRegion, MemoryRegionKind, MemoryState};
use lazers::memory::phys::PhysicalMemory;
use lazers::storage::ahci::{
    PortStop, PortStopStep,
    first_sata_port, port_is_sata_disk, read_command, start_command, stop_command, AhciController, ReadPhase,
    SectorReadStep, MAX_SPINS,
};
use lazers::storage::StorageError;

fn controller() -> AhciController {
    AhciController {
        abar: 0xfebf_1000,
        port_index: 0,
        command_list_paddr: 0x1000,
        fis_paddr: 0x2000,
        command_table_paddr: 0x1_2345_3000,
        dma_buffer_paddr: 0x4000,
    }
}

#[test]
fn sata_disks_need_presence_activity_and_ata_signature() {
    assert!(port_is_sata_disk(0x113, 0x101));
    assert!(!port_is_sata_disk(0x111, 0x101));
    assert!(!port_is_sata_disk(0x213, 0x101));
    assert!(!port_is_sata_disk(0x113, 0xeb14_0101));
}

#[test]
fn first_implemented_sata_port_is_chosen() {
    let mut status = [0u32; 32];
    let mut signatures = [0u32; 32];
    status[1] = 0x113;
    signatures[1] = 0x101;
    status[4] = 0x113;
    signatures[4] = 0x101;
    assert_eq!(first_sata_port(0b10010, &status, &signatures), Some(1));
    assert_eq!(first_sata_port(0b10000, &status, &signatures), Some(4));
    assert_eq!(first_sata_port(0b01000, &status, &signatures), None);
}

#[test]
fn read_command_names_the_sector_and_buffers() {
    let command = read_command(0x0000_1234_5678_9abc, 0x1_2345_3000, 0x4000);
    assert_eq!(command.fis.len(), 20);
    assert_eq!(&command.fis[0..4], &[0x27, 0x80, 0x25, 0]);
    assert_eq!(&command.fis[4..11], &[0xbc, 0x9a, 0x78, 0x40, 0x56, 0x34, 0x12]);
    assert_eq!(&command.fis[11..14], &[0, 1, 0]);
    assert_eq!(command.command_fis_length, 5);
    assert_eq!(command.prdt_length, 1);
    assert_eq!(command.command_table_base, 0x2345_3000);
    assert_eq!(command.command_table_base_upper, 1);
    assert_eq!(command.data_base, 0x4000);
    assert_eq!(command.byte_count, 511);
}

#[test]
fn port_command_updates_touch_only_start_bits() {
    assert_eq!(stop_command(0xc017), 0xc006);
    assert_eq!(start_command(0x0006), 0x0017);
}

#[test]
fn sector_read_walks_through_submit_and_completion() {
    let controller = controller();
    let (mut read, step) = controller.read_sector(7);
    assert!(matches!(step, SectorReadStep::ReadTaskFile));
    // busy, then ready
    assert!(matches!(read.resume(&controller, 0x80), SectorReadStep::ReadTaskFile));
    match read.resume(&controller, 0x50) {
        SectorReadStep::Submit(command) => assert_eq!(command.fis[4], 7),
        _ => panic!("expected the command"),
    }
    assert!(matches!(read.resume(&controller, 0), SectorReadStep::ReadCommandIssue));
    assert!(matches!(read.resume(&controller, 1), SectorReadStep::ReadInterruptStatus));
    assert!(matches!(read.resume(&controller, 0), SectorReadStep::ReadCommandIssue));
    assert!(matches!(read.resume(&controller, 0), SectorReadStep::CopyDmaBuffer));
    assert_eq!(read.phase, ReadPhase::Finished);
}

#[test]
fn task_file_errors_fail_the_read() {
    let controller = controller();
    let (mut read, _) = controller.read_sector(0);
    let _ = read.resume(&controller, 0);
    assert!(matches!(
        read.resume(&controller, 0x4000_0000),
        SectorReadStep::Failed(StorageError::AhciTaskFileError)
    ));
}

#[test]
fn a_device_that_stays_busy_times_out() {
    let controller = controller();
    let (mut read, _) = controller.read_sector(0);
    let mut polls = 0usize;
    loop {
        match read.resume(&controller, 0x88) {
            SectorReadStep::ReadTaskFile => polls += 1,
            SectorReadStep::Failed(error) => {
                assert_eq!(error, StorageError::AhciCommandTimeout);
                break;
            }
            _ => panic!("unexpected step"),
        }
    }
    assert_eq!(polls, MAX_SPINS);
}

#[test]
fn initialize_takes_four_pages_and_the_first_disk_port() {
    let memory = PhysicalMemory::new(0x100_0000, 0x2_0000);
    let mut state = MemoryState::new(memory);
    let regions = [MemoryRegion { start: 0x100_0000, page_count: 32, kind: MemoryRegionKind::Usable }];
    state.initialize_allocator(&regions, None).unwrap();
    let mut status = [0u32; 32];
    let mut signatures = [0u32; 32];
    status[2] = 0x113;
    signatures[2] = 0x101;
    let controller = AhciController::initialize(&mut state, 0xfebf_1000, 0b100, &status, &signatures).unwrap();
    assert_eq!(controller.port_index, 2);
    let pages = [controller.command_list_paddr, controller.fis_paddr, controller.command_table_paddr, controller.dma_buffer_paddr];
    assert_eq!(pages, [0x100_0000, 0x100_1000, 0x100_2000, 0x100_3000]);
    assert!(matches!(
        AhciController::initialize(&mut state, 0xfebf_1000, 0, &status, &signatures),
        Err(StorageError::AhciPortNotFound)
    ));
}

#[test]
fn port_stop_wait_polls_then_times_out() {
    let mut wait = PortStop::new();
    assert_eq!(wait.poll(0x0000_8000), PortStopStep::Poll);
    assert_eq!(wait.poll(0x0000_4000), PortStopStep::Poll);
    assert_eq!(wait.poll(0), PortStopStep::Stopped);
    let mut stuck = PortStop { spins: MAX_SPINS };
    assert_eq!(stuck.poll(0x0000_8000), PortStopStep::TimedOut);
}
