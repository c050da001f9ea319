use lazers::memory::allocator::PhysicalAllocator;
use lazers::memory::kernel::{MemoryRegion, MemoryRegionKind, MemoryState};
use lazers::memory::phys::PhysicalMemory;
use lazers::memory::types::{MemoryError, OwnedPages, MAX_OWNED_PAGES, PAGE_SIZE};
use lazers::util::{align_down, align_up};

const BASE: u64 = 0x20_0000;

fn host_region(pages: usize) -> (PhysicalMemory, u64, u64) {
    let memory = PhysicalMemory::new(BASE, pages * PAGE_SIZE);
    (memory, BASE, BASE + (pages * PAGE_SIZE) as u64)
}

fn all_bytes(memory: &PhysicalMemory, start: u64, len: usize, value: u8) -> bool {
    (0..len as u64).all(|offset| memory.read_byte(start + offset) == value)
}

#[test]
fn merges_adjacent_inserted_ranges() {
    let (_memory, start, _) = host_region(4);
    let mut allocator = PhysicalAllocator::new();
    allocator.add_region(start, start + PAGE_SIZE as u64).unwrap();
    allocator
        .add_region(start + PAGE_SIZE as u64, start + 3 * PAGE_SIZE as u64)
        .unwrap();

    assert_eq!(allocator.region_count(), 1);
    assert_eq!(allocator.region(0).0, start);
    assert_eq!(allocator.region(0).1, start + 3 * PAGE_SIZE as u64);
}

#[test]
fn reserve_range_splits_region() {
    let (_memory, start, end) = host_region(4);
    let mut allocator = PhysicalAllocator::new();
    allocator.add_region(start, end).unwrap();

    allocator.reserve_range(start + PAGE_SIZE as u64, start + 2 * PAGE_SIZE as u64);

    assert_eq!(allocator.region_count(), 2);
    assert_eq!(allocator.region(0).0, start);
    assert_eq!(allocator.region(0).1, start + PAGE_SIZE as u64);
    assert_eq!(allocator.region(1).0, start + 2 * PAGE_SIZE as u64);
    assert_eq!(allocator.region(1).1, end);
}

#[test]
fn allocate_page_zeros_memory_and_exhausts() {
    let (mut memory, start, end) = host_region(1);
    let mut allocator = PhysicalAllocator::new();
    allocator.add_region(start, end).unwrap();
    memory.fill(start, PAGE_SIZE as u64, 0xaa);

    let page = allocator.allocate_page(&mut memory).unwrap();
    assert_eq!(page, start);
    assert!(all_bytes(&memory, start, PAGE_SIZE, 0));
    assert!(matches!(
        allocator.allocate_page(&mut memory),
        Err(MemoryError::AllocatorExhausted)
    ));
}

#[test]
fn allocate_contiguous_pages_zeros_memory_and_exhausts() {
    let (mut memory, start, end) = host_region(2);
    let mut allocator = PhysicalAllocator::new();
    allocator.add_region(start, end).unwrap();
    memory.fill(start, PAGE_SIZE as u64, 0xaa);
    memory.fill(start + PAGE_SIZE as u64, PAGE_SIZE as u64, 0xbb);

    let allocated = allocator.allocate_contiguous_pages(2, &mut memory).unwrap();
    assert_eq!(allocated, start);
    assert!(all_bytes(&memory, start, 2 * PAGE_SIZE, 0));
    assert!(matches!(
        allocator.allocate_contiguous_pages(1, &mut memory),
        Err(MemoryError::AllocatorExhausted)
    ));
}

#[test]
fn freed_pages_can_be_allocated_again() {
    let (mut memory, start, end) = host_region(2);
    let mut allocator = PhysicalAllocator::new();
    allocator.add_region(start, end).unwrap();
    let first = allocator.allocate_contiguous_pages(2, &mut memory).unwrap();
    allocator.free_contiguous_pages(first, 2);
    assert_eq!(allocator.region_count(), 1);
    assert_eq!(allocator.allocate_page(&mut memory).unwrap(), start);
}

#[test]
fn owned_pages_capacity_is_enforced() {
    let mut pages = OwnedPages::empty();
    for page in 0..MAX_OWNED_PAGES {
        pages.push((page as u64) * PAGE_SIZE as u64).unwrap();
    }

    assert!(matches!(
        pages.push(0xdead_beef),
        Err(MemoryError::OwnedPageCapacityExceeded)
    ));
}

#[test]
fn align_helpers_round_as_expected() {
    assert_eq!(align_down(0x1234, 0x1000), 0x1000);
    assert_eq!(align_up(0x1234, 0x1000), 0x2000);
    assert_eq!(align_up(0, 0x1000), 0);
}

#[test]
fn kernel_buffer_slices_read_and_write_its_pages() {
    let memory = PhysicalMemory::new(0x100_0000, 8 * PAGE_SIZE);
    let mut state = MemoryState::new(memory);
    let regions = [MemoryRegion { start: 0x100_0000, page_count: 8, kind: MemoryRegionKind::Usable }];
    state.initialize_allocator(&regions, None).unwrap();

    let buffer = state.allocate_kernel_buffer(5000).unwrap();
    assert_eq!(buffer.len(), 5000);
    assert_eq!(buffer.page_count(), 2);
    assert!(buffer.as_slice(&state.memory).iter().all(|byte| *byte == 0));

    let bytes = buffer.as_mut_slice(&mut state.memory);
    bytes[0] = 0x11;
    bytes[4999] = 0x22;

    let view = buffer.as_slice(&state.memory);
    assert_eq!(view.len(), 5000);
    assert_eq!(view[0], 0x11);
    assert_eq!(view[4999], 0x22);
    assert_eq!(state.memory.read_byte(buffer.start_paddr()), 0x11);
    assert_eq!(state.memory.read_byte(buffer.start_paddr() + 4999), 0x22);
    assert_eq!(state.memory.read_byte(buffer.start_paddr() + 5000), 0);

    let start = buffer.start_paddr();
    buffer.release(&mut state);
    let again = state.allocate_kernel_buffer(8192).unwrap();
    assert_eq!(again.start_paddr(), start);
}

#[test]
fn alignment_works_for_any_power_of_two() {
    assert_eq!(align_down(100, 32), 96);
    assert_eq!(align_up(100, 64), 128);
    assert_eq!(align_up(128, 64), 128);
    assert_eq!(align_down(0x1_2345, 1), 0x1_2345);
}
