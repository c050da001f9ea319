use lazers::memory::allocator::PhysicalAllocator;
use lazers::memory::paging::{pd_index, pdpt_index, pml4_index, pt_index, AddressSpaceBuilder, ADDRESS_MASK};
use lazers::memory::phys::PhysicalMemory;
use lazers::memory::types::{MemoryError, OwnedPages, PAGE_PRESENT, PAGE_SIZE, PAGE_USER, PAGE_WRITABLE};

const BASE: u64 = 0x20_0000;

fn entry(memory: &PhysicalMemory, table: u64, index: usize) -> u64 {
    memory.read_u64(table + 8 * index as u64)
}

#[test]
fn map_4k_populates_page_tables() {
    let mut memory = PhysicalMemory::new(BASE, 5 * PAGE_SIZE);
    let root = BASE;
    let pdpt = BASE + PAGE_SIZE as u64;
    let pd = BASE + 2 * PAGE_SIZE as u64;
    let pt = BASE + 3 * PAGE_SIZE as u64;
    let phys = BASE + 4 * PAGE_SIZE as u64;
    let virt = 0x0040_3000_u64;

    let mut allocator = PhysicalAllocator::new();
    allocator.add_region(pdpt, pt + PAGE_SIZE as u64).unwrap();

    let mut owned_pages = OwnedPages::empty();
    let mut builder = AddressSpaceBuilder::new(root, true);
    builder
        .map_4k(&mut allocator, &mut memory, &mut owned_pages, virt, phys, PAGE_PRESENT | PAGE_USER)
        .unwrap();

    let root_entry = entry(&memory, root, pml4_index(virt));
    let pdpt_entry = entry(&memory, pdpt, pdpt_index(virt));
    let pd_entry = entry(&memory, pd, pd_index(virt));
    let pt_entry = entry(&memory, pt, pt_index(virt));
    assert_eq!(root_entry & ADDRESS_MASK, pdpt);
    assert_eq!(pdpt_entry & ADDRESS_MASK, pd);
    assert_eq!(pd_entry & ADDRESS_MASK, pt);
    assert_eq!(pt_entry & ADDRESS_MASK, phys);
}

#[test]
fn map_4k_reports_allocator_exhaustion() {
    let mut memory = PhysicalMemory::new(BASE, PAGE_SIZE);
    let root = BASE;
    let mut allocator = PhysicalAllocator::new();
    allocator.reset();

    let mut owned_pages = OwnedPages::empty();
    let mut builder = AddressSpaceBuilder::new(root, false);
    assert!(matches!(
        builder.map_4k(&mut allocator, &mut memory, &mut owned_pages, 0x4000, 0x8000, PAGE_PRESENT),
        Err(MemoryError::AllocatorExhausted)
    ));
}

#[test]
fn map_4k_entries_carry_flags_and_owned_tables() {
    let mut memory = PhysicalMemory::new(BASE, 5 * PAGE_SIZE);
    let root = BASE;
    let phys = BASE + 4 * PAGE_SIZE as u64;
    let virt = 0x0040_3000_u64;
    let mut allocator = PhysicalAllocator::new();
    allocator.add_region(BASE + PAGE_SIZE as u64, BASE + 4 * PAGE_SIZE as u64).unwrap();
    let mut owned_pages = OwnedPages::empty();
    let mut builder = AddressSpaceBuilder::new(root, true);
    let flags = PAGE_PRESENT | PAGE_USER | PAGE_WRITABLE;
    builder.map_4k(&mut allocator, &mut memory, &mut owned_pages, virt, phys, flags).unwrap();

    // the three new tables were taken from the allocator and recorded
    assert_eq!(owned_pages.len(), 3);
    assert_eq!(allocator.region_count(), 0);
    // the leaf entry is the frame with exactly the requested flags
    let pt = BASE + 3 * PAGE_SIZE as u64;
    assert_eq!(entry(&memory, pt, pt_index(virt)), phys | flags);
    // upper entries are present, writable and open to the user
    let pml4e = entry(&memory, root, pml4_index(virt));
    assert_eq!(pml4e & 7, 7);
}

#[test]
fn map_4k_second_page_reuses_tables() {
    let mut memory = PhysicalMemory::new(BASE, 6 * PAGE_SIZE);
    let root = BASE;
    let mut allocator = PhysicalAllocator::new();
    allocator.add_region(BASE + PAGE_SIZE as u64, BASE + 4 * PAGE_SIZE as u64).unwrap();
    let mut owned_pages = OwnedPages::empty();
    let mut builder = AddressSpaceBuilder::new(root, true);
    let a = BASE + 4 * PAGE_SIZE as u64;
    let b = BASE + 5 * PAGE_SIZE as u64;
    builder.map_4k(&mut allocator, &mut memory, &mut owned_pages, 0x40_0000, a, PAGE_PRESENT).unwrap();
    // no page left: the neighbouring page must reuse every table
    builder.map_4k(&mut allocator, &mut memory, &mut owned_pages, 0x40_1000, b, PAGE_PRESENT).unwrap();
    let pt = BASE + 3 * PAGE_SIZE as u64;
    assert_eq!(entry(&memory, pt, pt_index(0x40_0000)) & ADDRESS_MASK, a);
    assert_eq!(entry(&memory, pt, pt_index(0x40_1000)) & ADDRESS_MASK, b);
    assert_eq!(owned_pages.len(), 3);
}
