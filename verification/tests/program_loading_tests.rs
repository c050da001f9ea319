use lazers::elf::ElfError;
use lazers::memory::kernel::{MemoryRegion, MemoryRegionKind, MemoryState};
use lazers::memory::loader::{load_user_program, prepare_startup_layout};
use lazers::memory::paging::{pd_index, pdpt_index, pml4_index, pt_index, ADDRESS_MASK};
use lazers::memory::phys::PhysicalMemory;
use lazers::memory::types::{MemoryError, ProgramStartup, PAGE_SIZE, USER_STACK_TOP};

const MEMORY_BASE: u64 = 0x100_0000;

fn memory_state(pages: u64) -> MemoryState {
    let memory = PhysicalMemory::new(MEMORY_BASE, 0x20_0000);
    let mut state = MemoryState::new(memory);
    let regions = [MemoryRegion { start: MEMORY_BASE, page_count: pages, kind: MemoryRegionKind::Usable }];
    state.initialize_allocator(&regions, None).unwrap();
    state
}

struct Segment {
    kind: u32,
    flags: u32,
    offset: u64,
    vaddr: u64,
    file_size: u64,
    memory_size: u64,
}

fn elf_image(entry: u64, segments: &[Segment], payload: &[u8]) -> Vec<u8> {
    let mut bytes = vec![0u8; 64];
    bytes[0..4].copy_from_slice(&[0x7f, b'E', b'L', b'F']);
    bytes[4] = 2;
    bytes[5] = 1;
    bytes[6] = 1;
    bytes[16..18].copy_from_slice(&2u16.to_le_bytes());
    bytes[18..20].copy_from_slice(&62u16.to_le_bytes());
    bytes[20..24].copy_from_slice(&1u32.to_le_bytes());
    bytes[24..32].copy_from_slice(&entry.to_le_bytes());
    bytes[32..40].copy_from_slice(&64u64.to_le_bytes());
    bytes[54..56].copy_from_slice(&56u16.to_le_bytes());
    bytes[56..58].copy_from_slice(&(segments.len() as u16).to_le_bytes());
    for segment in segments {
        let mut header = vec![0u8; 56];
        header[0..4].copy_from_slice(&segment.kind.to_le_bytes());
        header[4..8].copy_from_slice(&segment.flags.to_le_bytes());
        header[8..16].copy_from_slice(&segment.offset.to_le_bytes());
        header[16..24].copy_from_slice(&segment.vaddr.to_le_bytes());
        header[32..40].copy_from_slice(&segment.file_size.to_le_bytes());
        header[40..48].copy_from_slice(&segment.memory_size.to_le_bytes());
        bytes.extend_from_slice(&header);
    }
    bytes.extend_from_slice(payload);
    bytes
}

/// The payload starts right after the header and one program header.
const PAYLOAD_OFFSET: u64 = 64 + 56;

fn translate(memory: &PhysicalMemory, root: u64, virt: u64) -> Option<(u64, u64)> {
    let mut table = root;
    for index in [pml4_index(virt), pdpt_index(virt), pd_index(virt)] {
        let entry = memory.read_u64(table + 8 * index as u64);
        if entry & 1 == 0 {
            return None;
        }
        table = entry & ADDRESS_MASK;
    }
    let entry = memory.read_u64(table + 8 * pt_index(virt) as u64);
    if entry & 1 == 0 {
        return None;
    }
    Some((entry & ADDRESS_MASK, entry & 0xfff))
}

fn user_byte(memory: &PhysicalMemory, root: u64, virt: u64) -> u8 {
    let (frame, _) = translate(memory, root, virt & !0xfff).unwrap();
    memory.read_byte(frame + (virt & 0xfff))
}

#[test]
fn loads_segment_stack_and_arguments() {
    let mut state = memory_state(512);
    let payload = [0xde, 0xad, 0xbe, 0xef, 0x01, 0x02];
    let image = elf_image(
        0x40_0000,
        &[Segment { kind: 1, flags: 5, offset: PAYLOAD_OFFSET, vaddr: 0x40_0000, file_size: 6, memory_size: 0x1800 }],
        &payload,
    );
    let startup = ProgramStartup { argv0: "/bin/demo", argv_tail: b"-v\0" };
    let program = load_user_program(&mut state, &image, &startup).unwrap();
    let root = program.address_space.root_paddr();

    assert_eq!(program.entry_point, 0x40_0000);
    let layout = prepare_startup_layout(&startup).unwrap();
    assert_eq!(program.user_stack_top, layout.stack_start);

    // file bytes, then zeroed memory up to the end of the second page
    for (i, byte) in payload.iter().enumerate() {
        assert_eq!(user_byte(&state.memory, root, 0x40_0000 + i as u64), *byte);
    }
    assert_eq!(user_byte(&state.memory, root, 0x40_0006), 0);
    assert_eq!(user_byte(&state.memory, root, 0x40_17ff), 0);
    // segment pages are read-only user pages, the stack is writable
    assert_eq!(translate(&state.memory, root, 0x40_0000).unwrap().1, 5);
    assert_eq!(translate(&state.memory, root, 0x40_1000).unwrap().1, 5);
    assert!(translate(&state.memory, root, 0x40_2000).is_none());
    assert_eq!(translate(&state.memory, root, USER_STACK_TOP - 0x1000).unwrap().1, 7);
    // argc and the first argv pointer on the initial stack
    let argc: Vec<u8> = (0..8).map(|i| user_byte(&state.memory, root, program.user_stack_top + i)).collect();
    assert_eq!(u64::from_le_bytes(argc.try_into().unwrap()), 2);
    let argv0: Vec<u8> = (0..8).map(|i| user_byte(&state.memory, root, program.user_stack_top + 8 + i)).collect();
    let argv0 = u64::from_le_bytes(argv0.try_into().unwrap());
    assert_eq!(argv0, layout.strings_start);
    let name: Vec<u8> = (0..10).map(|i| user_byte(&state.memory, root, argv0 + i)).collect();
    assert_eq!(name, b"/bin/demo\0".to_vec());
    // root, upper tables, two page tables, two segment pages and the stack are owned
    assert!(program.owned_pages.len() >= 1 + 2 + 16);
    assert_eq!(program.owned_pages.page(0), root);
}

#[test]
fn later_segment_bytes_win_where_files_overlap() {
    let mut state = memory_state(512);
    let payload = [1u8, 2, 3, 4, 9, 9];
    let image = elf_image(
        0x40_0000,
        &[
            Segment { kind: 1, flags: 6, offset: PAYLOAD_OFFSET + 56, vaddr: 0x40_0000, file_size: 4, memory_size: 4 },
            Segment { kind: 1, flags: 6, offset: PAYLOAD_OFFSET + 56 + 4, vaddr: 0x40_0002, file_size: 2, memory_size: 2 },
        ],
        &payload,
    );
    let startup = ProgramStartup { argv0: "/bin/demo", argv_tail: b"" };
    let program = load_user_program(&mut state, &image, &startup).unwrap();
    let root = program.address_space.root_paddr();
    let bytes: Vec<u8> = (0..4).map(|i| user_byte(&state.memory, root, 0x40_0000 + i)).collect();
    assert_eq!(bytes, vec![1, 2, 9, 9]);
    // writable segments give writable pages
    assert_eq!(translate(&state.memory, root, 0x40_0000).unwrap().1, 7);
}

#[test]
fn rejects_bad_magic_without_touching_memory() {
    let mut state = memory_state(512);
    let mut image = elf_image(0x40_0000, &[], &[]);
    image[0] = 0;
    let startup = ProgramStartup { argv0: "/bin/demo", argv_tail: b"" };
    let regions_before = state.allocator.region(0);
    assert!(matches!(
        load_user_program(&mut state, &image, &startup),
        Err(MemoryError::Elf(ElfError::InvalidMagic))
    ));
    assert_eq!(state.allocator.region(0), regions_before);
}

#[test]
fn rejects_entry_outside_user_range() {
    let mut state = memory_state(512);
    let image = elf_image(0x1000, &[], &[]);
    let startup = ProgramStartup { argv0: "/bin/demo", argv_tail: b"" };
    assert!(matches!(load_user_program(&mut state, &image, &startup), Err(MemoryError::UserImageOutOfRange)));
}

#[test]
fn rejects_segment_reaching_into_the_stack() {
    let mut state = memory_state(512);
    let image = elf_image(
        0x40_0000,
        &[Segment { kind: 1, flags: 5, offset: PAYLOAD_OFFSET, vaddr: 0x7e_f000, file_size: 0, memory_size: 0x2000 }],
        &[],
    );
    let startup = ProgramStartup { argv0: "/bin/demo", argv_tail: b"" };
    assert!(matches!(load_user_program(&mut state, &image, &startup), Err(MemoryError::UserImageOutOfRange)));
}

#[test]
fn rejects_segment_with_more_file_than_memory() {
    let mut state = memory_state(512);
    let image = elf_image(
        0x40_0000,
        &[Segment { kind: 1, flags: 5, offset: PAYLOAD_OFFSET, vaddr: 0x40_0000, file_size: 8, memory_size: 4 }],
        &[0u8; 8],
    );
    let startup = ProgramStartup { argv0: "/bin/demo", argv_tail: b"" };
    assert!(matches!(load_user_program(&mut state, &image, &startup), Err(MemoryError::UserImageOutOfRange)));
}

#[test]
fn rejects_segment_past_end_of_file() {
    let mut state = memory_state(512);
    let image = elf_image(
        0x40_0000,
        &[Segment { kind: 1, flags: 5, offset: PAYLOAD_OFFSET, vaddr: 0x40_0000, file_size: 64, memory_size: 64 }],
        &[0u8; 8],
    );
    let startup = ProgramStartup { argv0: "/bin/demo", argv_tail: b"" };
    assert!(matches!(
        load_user_program(&mut state, &image, &startup),
        Err(MemoryError::Elf(ElfError::SegmentExtendsPastFile))
    ));
}

#[test]
fn rejects_invalid_startup_arguments() {
    let mut state = memory_state(512);
    let image = elf_image(0x40_0000, &[], &[]);
    let startup = ProgramStartup { argv0: "/bin/demo", argv_tail: b"unterminated" };
    assert!(matches!(load_user_program(&mut state, &image, &startup), Err(MemoryError::InvalidStartupArguments)));
}

#[test]
fn reports_exhausted_memory() {
    let mut state = memory_state(2);
    let image = elf_image(0x40_0000, &[], &[]);
    let startup = ProgramStartup { argv0: "/bin/demo", argv_tail: b"" };
    assert!(matches!(load_user_program(&mut state, &image, &startup), Err(MemoryError::AllocatorExhausted)));
}

#[test]
fn ignores_headers_that_are_not_loadable() {
    let mut state = memory_state(512);
    let image = elf_image(
        0x40_0000,
        &[Segment { kind: 4, flags: 0, offset: 0, vaddr: 0x9999_0000, file_size: 0x10, memory_size: 0x10 }],
        &[],
    );
    let startup = ProgramStartup { argv0: "/bin/demo", argv_tail: b"" };
    let program = load_user_program(&mut state, &image, &startup).unwrap();
    assert!(translate(&state.memory, program.address_space.root_paddr(), 0x9999_0000).is_none());
}

#[test]
fn loads_an_image_that_fills_the_page_map() {
    // 112 segment pages and 16 stack pages: exactly the 128 the map holds
    let mut state = memory_state(512);
    let image = elf_image(
        0x40_0000,
        &[Segment { kind: 1, flags: 6, offset: PAYLOAD_OFFSET, vaddr: 0x40_0000, file_size: 0, memory_size: 112 * 0x1000 }],
        &[],
    );
    let startup = ProgramStartup { argv0: "/bin/big", argv_tail: b"" };
    let program = load_user_program(&mut state, &image, &startup).unwrap();
    let root = program.address_space.root_paddr();
    assert!(translate(&state.memory, root, 0x40_0000 + 111 * 0x1000).is_some());
    assert!(translate(&state.memory, root, 0x40_0000 + 112 * 0x1000).is_none());
}

#[test]
fn rejects_an_image_with_more_pages_than_the_map_holds() {
    // 113 segment pages and 16 stack pages: one more than the map holds
    let mut state = memory_state(512);
    let image = elf_image(
        0x40_0000,
        &[Segment { kind: 1, flags: 6, offset: PAYLOAD_OFFSET, vaddr: 0x40_0000, file_size: 0, memory_size: 113 * 0x1000 }],
        &[],
    );
    let startup = ProgramStartup { argv0: "/bin/big", argv_tail: b"" };
    let free_before = free_bytes(&state);
    assert!(matches!(
        load_user_program(&mut state, &image, &startup),
        Err(MemoryError::SegmentOverlapCapacityExceeded)
    ));
    // the owned pages go back; the frame taken for the page that found no
    // room in the map was never recorded as owned and stays taken
    assert_eq!(free_bytes(&state), free_before - PAGE_SIZE as u64);
}

fn free_bytes(state: &MemoryState) -> u64 {
    let mut total = 0;
    for index in 0..state.allocator.region_count() {
        let (start, end) = state.allocator.region(index);
        total += end - start;
    }
    total
}

#[test]
fn runs_out_of_memory_with_few_free_pages() {
    let mut state = memory_state(8);
    let image = elf_image(
        0x40_0000,
        &[Segment { kind: 1, flags: 6, offset: PAYLOAD_OFFSET, vaddr: 0x40_0000, file_size: 0, memory_size: 0x1000 }],
        &[],
    );
    let startup = ProgramStartup { argv0: "/bin/small", argv_tail: b"" };
    assert!(matches!(load_user_program(&mut state, &image, &startup), Err(MemoryError::AllocatorExhausted)));
}
