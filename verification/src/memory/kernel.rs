//! The kernel's memory state: the boot memory map turned into free memory,
//! the kernel page tables with their identity window, kernel buffers, and
//! the mappings every address space shares with the kernel.
use vstd::prelude::*;

use crate::memory::allocator::{is_first_fit, no_free_page, region_fits, region_touches, PhysicalAllocator};
use crate::memory::paging::{
    context_ok, huge_on_path, changed_within, in_tables, lemma_fresh_root, touched_only, lemma_tree_after_take, lemma_tree_frame,
    new_tables_were_free, owned_grew, levels_grow, take_page, translate_2m, taken_within, lemma_taken_within_none,
    lemma_taken_within_trans, slots_touched,
    translate_4k, tree_ok, usable_table, AddressSpaceBuilder, DIRECTORY_SPAN, IDENTITY_LIMIT,
};
use crate::memory::phys::PhysicalMemory;
use crate::memory::types::{
    AddressSpace, KernelBuffer, MemoryError, OwnedPages, LARGE_PAGE_SIZE, MAX_FREE_RANGES, MAX_OWNED_PAGES,
    MAX_SHARED_KERNEL_MAPPINGS, PAGE_HUGE, PAGE_PRESENT, PAGE_SIZE, PAGE_WRITABLE, PHYS_WINDOW_START,
};
use crate::util::{align_down, align_up, spec_align_down, spec_align_up};

verus! {

/// What the firmware reports a stretch of physical memory to be.
#[derive(Clone, Copy, Debug, PartialEq, Eq, Structural)]
pub enum MemoryRegionKind {
    Usable,
    Reserved,
    Loader,
    BootServices,
    RuntimeServices,
    AcpiReclaimable,
    AcpiNvs,
    Mmio,
    Persistent,
    Unusable,
}

/// One entry of the boot memory map: `page_count` 4 KiB pages from `start`.
#[derive(Clone, Copy, Debug, PartialEq, Eq, Structural)]
pub struct MemoryRegion {
    pub start: u64,
    pub page_count: u64,
    pub kind: MemoryRegionKind,
}

/// The byte length of `page_count` pages, saturated at `u64::MAX`.
pub open spec fn region_bytes(page_count: u64) -> int {
    if page_count * PAGE_SIZE > u64::MAX { u64::MAX as int } else { page_count * PAGE_SIZE }
}

/// First address of a region that the allocator may hand out: memory below
/// the identity window start is never used.
pub open spec fn usable_start(r: MemoryRegion) -> int {
    if r.start < PHYS_WINDOW_START { PHYS_WINDOW_START as int } else { r.start as int }
}

/// End of the whole pages of a region.
pub open spec fn usable_end(r: MemoryRegion) -> int {
    let end = r.start + region_bytes(r.page_count);
    end - end % PAGE_SIZE as int
}

/// The region adds free memory.
pub open spec fn contributes(r: MemoryRegion) -> bool {
    r.kind == MemoryRegionKind::Usable && usable_end(r) > usable_start(r)
}

/// The highest end of the memory that the first `n` regions add (0 if none).
pub open spec fn highest_usable_end(regions: Seq<MemoryRegion>, n: int) -> int
    decreases n,
{
    if n <= 0 {
        0
    } else {
        let rest = highest_usable_end(regions, n - 1);
        if contributes(regions[n - 1]) && usable_end(regions[n - 1]) > rest { usable_end(regions[n - 1]) } else { rest }
    }
}

/// Address `a` lies in memory that one of the first `n` regions adds.
pub open spec fn in_usable_memory(regions: Seq<MemoryRegion>, n: int, a: int) -> bool {
    exists|i: int| 0 <= i < n && #[trigger] contributes(regions[i]) && usable_start(regions[i]) <= a < usable_end(regions[i])
}

/// The boot memory map can be read without overflow and its usable memory
/// lies in the modelled physical window.
pub open spec fn memory_map_fits(regions: Seq<MemoryRegion>, memory: PhysicalMemory) -> bool {
    &&& regions.len() < MAX_FREE_RANGES
    &&& forall|i: int| 0 <= i < regions.len() && (#[trigger] regions[i]).kind == MemoryRegionKind::Usable
        ==> regions[i].start as int % PAGE_SIZE as int == 0
    &&& forall|i: int| 0 <= i < regions.len() && (#[trigger] regions[i]).kind == MemoryRegionKind::Usable
        ==> regions[i].start + region_bytes(regions[i].page_count) <= u64::MAX
    &&& forall|i: int| 0 <= i < regions.len() && #[trigger] contributes(regions[i])
        ==> memory.covers(usable_start(regions[i]), usable_end(regions[i]))
}

/// End of the identity window for a memory map: the highest usable address
/// rounded up to 2 MiB.
pub open spec fn window_end_for(regions: Seq<MemoryRegion>) -> int {
    spec_align_up(highest_usable_end(regions, regions.len() as int) as u64, LARGE_PAGE_SIZE)
}

/// Flags of kernel identity mappings.
pub open spec fn kernel_flags(writable: bool) -> u64 {
    if writable { PAGE_PRESENT | PAGE_WRITABLE } else { PAGE_PRESENT }
}

/// The 2 MiB identity window `[PHYS_WINDOW_START, window_end)` is mapped
/// writable under `root`.
pub open spec fn window_mapped(mem: PhysicalMemory, root: u64, window_end: int) -> bool {
    forall|a: u64| PHYS_WINDOW_START <= a < window_end
        ==> #[trigger] translate_2m(mem, root, a) == Some(((a - a % LARGE_PAGE_SIZE) as u64) | kernel_flags(true) | PAGE_HUGE)
}

/// `[start, end)` is identity-mapped with 4 KiB pages and `flags` under `root`.
pub open spec fn range_mapped_4k(mem: PhysicalMemory, root: u64, start: int, end: int, flags: u64) -> bool {
    forall|a: u64| start <= a < end
        ==> #[trigger] translate_4k(mem, root, a) == Some(((a - a % (PAGE_SIZE as u64)) as u64) | flags)
}

/// A range of kernel MMIO that every address space maps page by page.
#[derive(Clone, Copy, Debug, PartialEq, Eq, Structural)]
pub struct SharedKernelMapping {
    pub start: u64,
    pub end: u64,
    pub writable: bool,
}

/// `[start, end)` lies entirely below or entirely above the identity window
/// `[PHYS_WINDOW_START, window_end)`.
pub open spec fn outside_window(start: int, end: int, window_end: int) -> bool {
    end <= PHYS_WINDOW_START || start >= window_end
}

/// A page-aligned range below the identity limit.
pub open spec fn page_range_ok(start: int, end: int) -> bool {
    &&& start % PAGE_SIZE as int == 0
    &&& end % PAGE_SIZE as int == 0
    &&& 0 <= start <= end <= IDENTITY_LIMIT
}

/// The framebuffer is mapped page by page when it is not inside the window.
pub open spec fn framebuffer_mapped_apart(start: u64, end: u64, window_end: u64) -> bool {
    start < PHYS_WINDOW_START || end > window_end
}

/// At most how many page tables the first `n` shared MMIO ranges need in a
/// new address space: three for each 2 MiB slot a range touches.
pub open spec fn shared_tables(mappings: Seq<SharedKernelMapping>, n: int) -> int
    decreases n,
{
    if n <= 0 {
        0
    } else {
        shared_tables(mappings, n - 1) + 3 * slots_touched(mappings[n - 1].start as int, mappings[n - 1].end as int,
            PAGE_SIZE as int, LARGE_PAGE_SIZE as int)
    }
}

/// The table count of the first `j` ranges is at least that of the first
/// `i` for `i <= j`.
proof fn lemma_shared_tables_grow(mappings: Seq<SharedKernelMapping>, i: int, j: int)
    requires
        0 <= i <= j,
    ensures
        shared_tables(mappings, i) <= shared_tables(mappings, j),
    decreases j - i,
{
    if i < j {
        lemma_shared_tables_grow(mappings, i, j - 1);
        let start = mappings[j - 1].start as int;
        let end = mappings[j - 1].end as int;
        if start < end {
            assert((end - PAGE_SIZE) / (LARGE_PAGE_SIZE as int) >= start / (LARGE_PAGE_SIZE as int) - 1);
        }
    }
}

/// At most how many page tables what a new address space shares with the
/// kernel needs: two for each 1 GiB slot of the identity window, three for
/// each 2 MiB slot of a framebuffer mapped apart, and those of the MMIO
/// ranges.
pub open spec fn context_tables(s: MemoryState) -> int {
    let fs = s.framebuffer_start;
    let fe = s.framebuffer_end;
    2 * slots_touched(PHYS_WINDOW_START as int, s.phys_window_end as int, LARGE_PAGE_SIZE as int, DIRECTORY_SPAN as int)
        + (if fs != 0 && framebuffer_mapped_apart(fs, fe, s.phys_window_end) {
            3 * slots_touched(fs as int, fe as int, PAGE_SIZE as int, LARGE_PAGE_SIZE as int)
        } else {
            0
        })
        + shared_tables(s.shared_kernel_mappings@, s.shared_kernel_mappings@.len() as int)
}

/// Each part of the table count of a shared context is at least zero.
pub proof fn lemma_context_tables_parts(s: MemoryState)
    ensures
        slots_touched(PHYS_WINDOW_START as int, s.phys_window_end as int, LARGE_PAGE_SIZE as int, DIRECTORY_SPAN as int) >= 0,
        slots_touched(s.framebuffer_start as int, s.framebuffer_end as int, PAGE_SIZE as int, LARGE_PAGE_SIZE as int) >= 0,
        shared_tables(s.shared_kernel_mappings@, s.shared_kernel_mappings@.len() as int) >= 0,
        context_tables(s) >= 0,
{
    lemma_shared_tables_grow(s.shared_kernel_mappings@, 0, s.shared_kernel_mappings@.len() as int);
    if PHYS_WINDOW_START < s.phys_window_end {
        assert((s.phys_window_end - LARGE_PAGE_SIZE) / (DIRECTORY_SPAN as int)
            >= (PHYS_WINDOW_START as int) / (DIRECTORY_SPAN as int) - 1);
    }
    let fs = s.framebuffer_start as int;
    let fe = s.framebuffer_end as int;
    if fs < fe {
        assert((fe - PAGE_SIZE) / (LARGE_PAGE_SIZE as int) >= fs / (LARGE_PAGE_SIZE as int) - 1);
    }
}

/// Kernel memory: free pages, the physical memory they live in, the kernel
/// tables once built, the identity window, the framebuffer range, and the
/// MMIO ranges shared with every address space.
pub struct MemoryState {
    pub allocator: PhysicalAllocator,
    pub memory: PhysicalMemory,
    pub kernel_space: Option<AddressSpace>,
    pub phys_window_end: u64,
    pub framebuffer_start: u64,
    pub framebuffer_end: u64,
    pub shared_kernel_mappings: Vec<SharedKernelMapping>,
    /// The tables under the kernel root, with their levels.
    pub kernel_levels: Ghost<Map<u64, int>>,
}

impl MemoryState {
    pub open spec fn wf(&self) -> bool {
        &&& context_ok(self.memory, self.allocator)
        &&& PHYS_WINDOW_START <= self.phys_window_end <= IDENTITY_LIMIT
        &&& self.phys_window_end as int % LARGE_PAGE_SIZE as int == 0
        &&& self.framebuffer_start != 0 ==> page_range_ok(self.framebuffer_start as int, self.framebuffer_end as int)
        &&& self.framebuffer_start != 0 && framebuffer_mapped_apart(self.framebuffer_start, self.framebuffer_end, self.phys_window_end)
            ==> outside_window(self.framebuffer_start as int, self.framebuffer_end as int, self.phys_window_end as int)
        &&& self.shared_kernel_mappings@.len() <= MAX_SHARED_KERNEL_MAPPINGS
        &&& forall|i: int| 0 <= i < self.shared_kernel_mappings@.len() ==> {
            let m = #[trigger] self.shared_kernel_mappings@[i];
            &&& page_range_ok(m.start as int, m.end as int)
            &&& m.start < m.end
            &&& outside_window(m.start as int, m.end as int, self.phys_window_end as int)
        }
        &&& self.kernel_space is None ==> self.kernel_levels@.dom() == Set::<u64>::empty()
        &&& self.kernel_space matches Some(space) ==> {
            &&& tree_ok(self.memory, self.allocator, space.spec_root(), self.kernel_levels@)
            &&& forall|v: u64| #[trigger] huge_on_path(self.memory, space.spec_root(), v) && v < IDENTITY_LIMIT
                ==> PHYS_WINDOW_START <= v < self.phys_window_end
        }
    }

    /// Kernel memory over `memory`, with no free pages and no tables yet.
    pub fn new(memory: PhysicalMemory) -> (r: Self)
        requires
            memory.wf(),
            memory.spec_base() + memory.spec_size() <= IDENTITY_LIMIT,
        ensures
            r.wf(),
            r.memory == memory,
            r.kernel_space is None,
            r.phys_window_end == PHYS_WINDOW_START,
            r.framebuffer_start == 0,
            r.shared_kernel_mappings@.len() == 0,
            forall|a: int| !#[trigger] r.allocator.is_free(a),
    {
        let allocator = PhysicalAllocator::new();
        let levels: Ghost<Map<u64, int>> = Ghost(Map::empty());
        MemoryState {
            allocator,
            memory,
            kernel_space: None,
            phys_window_end: PHYS_WINDOW_START,
            framebuffer_start: 0,
            framebuffer_end: 0,
            shared_kernel_mappings: Vec::new(),
            kernel_levels: levels,
        }
    }
}

impl MemoryState {
    /// Turns the usable entries of the boot memory map into free memory,
    /// leaving out everything below the identity window start and the
    /// kernel image, and sizes the identity window to the highest usable
    /// address, rounded up to 2 MiB.
    pub fn initialize_allocator(&mut self, regions: &[MemoryRegion], kernel_image: Option<(u64, u64)>) -> (r: Result<(), MemoryError>)
        requires
            old(self).wf(),
            old(self).kernel_space is None,
            old(self).framebuffer_start == 0,
            memory_map_fits(regions@, old(self).memory),
            kernel_image matches Some((s, e)) ==> s as int % PAGE_SIZE as int == 0 && e as int % PAGE_SIZE as int == 0,
        ensures
            final(self).wf(),
            final(self).memory == old(self).memory,
            final(self).kernel_space is None,
            final(self).framebuffer_start == old(self).framebuffer_start,
            final(self).framebuffer_end == old(self).framebuffer_end,
            final(self).shared_kernel_mappings@.len() == 0,
            r is Ok <==> highest_usable_end(regions@, regions@.len() as int) > PHYS_WINDOW_START,
            r is Err ==> r == Err::<(), MemoryError>(MemoryError::NoUsableMemory)
                && final(self).phys_window_end == old(self).phys_window_end,
            r is Ok ==> final(self).phys_window_end == spec_align_up(
                highest_usable_end(regions@, regions@.len() as int) as u64, LARGE_PAGE_SIZE),
            forall|a: int| #[trigger] final(self).allocator.is_free(a) <==> in_usable_memory(regions@, regions@.len() as int, a)
                && !(kernel_image matches Some((s, e)) && s <= a < e),
    {
        self.allocator.reset();
        self.shared_kernel_mappings = Vec::new();
        let mut highest_end: u64 = 0;
        let mut index: usize = 0;
        while index < regions.len()
            invariant
                index <= regions@.len(),
                memory_map_fits(regions@, self.memory),
                self.memory == old(self).memory,
                self.kernel_space is None,
                self.kernel_levels == old(self).kernel_levels,
                self.phys_window_end == old(self).phys_window_end,
                self.framebuffer_start == old(self).framebuffer_start,
                self.framebuffer_end == old(self).framebuffer_end,
                self.shared_kernel_mappings@.len() == 0,
                self.allocator.wf(),
                self.allocator.spec_regions().len() <= index,
                highest_end == highest_usable_end(regions@, index as int),
                forall|a: int| #[trigger] self.allocator.is_free(a) <==> in_usable_memory(regions@, index as int, a),
            decreases regions@.len() - index,
        {
            let region = regions[index];
            if region.kind == MemoryRegionKind::Usable {
                let start = if region.start < PHYS_WINDOW_START { PHYS_WINDOW_START } else { region.start };
                let bytes = if region.page_count > u64::MAX / (PAGE_SIZE as u64) {
                    u64::MAX
                } else {
                    region.page_count * (PAGE_SIZE as u64)
                };
                proof {
                    assert(region.start + region_bytes(region.page_count) <= u64::MAX);
                    if region.page_count > u64::MAX / (PAGE_SIZE as u64) {
                        assert(region.page_count * PAGE_SIZE > u64::MAX) by (nonlinear_arith)
                            requires
                                region.page_count > u64::MAX / 4096,
                        ;
                    } else {
                        assert(region.page_count * PAGE_SIZE <= u64::MAX) by (nonlinear_arith)
                            requires
                                region.page_count <= u64::MAX / 4096,
                        ;
                    }
                    assert(bytes == region_bytes(region.page_count));
                }
                let end = align_down(region.start + bytes, PAGE_SIZE as u64);
                proof {
                    assert(start == usable_start(region));
                    assert(end == usable_end(region));
                }
                if end > start {
                    let _ = self.allocator.add_region(start, end);
                    if end > highest_end {
                        highest_end = end;
                    }
                }
            }
            proof {
                assert forall|a: int| #[trigger] self.allocator.is_free(a) <==> in_usable_memory(regions@, index + 1, a) by {
                    let r = regions@[index as int];
                    if contributes(r) && usable_start(r) <= a < usable_end(r) {
                        assert(contributes(regions@[index as int]));
                    }
                    if in_usable_memory(regions@, index as int, a) {
                        let i = choose|i: int| 0 <= i < index && #[trigger] contributes(regions@[i])
                            && usable_start(regions@[i]) <= a < usable_end(regions@[i]);
                        assert(0 <= i < index + 1);
                    }
                    if in_usable_memory(regions@, index + 1, a) {
                        let i = choose|i: int| 0 <= i < index + 1 && #[trigger] contributes(regions@[i])
                            && usable_start(regions@[i]) <= a < usable_end(regions@[i]);
                        if i < index {
                            assert(in_usable_memory(regions@, index as int, a));
                        }
                    }
                }
            }
            index += 1;
        }
        proof {
            assert(regions@.len() == index);
        }
        if highest_end <= PHYS_WINDOW_START {
            proof {
                assert forall|a: int| !#[trigger] in_usable_memory(regions@, regions@.len() as int, a) by {
                    if in_usable_memory(regions@, regions@.len() as int, a) {
                        let i = choose|i: int| 0 <= i < regions@.len() && #[trigger] contributes(regions@[i])
                            && usable_start(regions@[i]) <= a < usable_end(regions@[i]);
                        lemma_highest_bounds(regions@, regions@.len() as int, i);
                    }
                }
            }
            return Err(MemoryError::NoUsableMemory);
        }
        let ghost before_reserve = self.allocator;
        match kernel_image {
            Some((kernel_start, kernel_end)) => {
                self.allocator.reserve_range(kernel_start, kernel_end);
            },
            None => {},
        }
        proof {
            lemma_highest_in_memory(regions@, regions@.len() as int, self.memory);
            lemma_usable_page_granular(regions@, before_reserve);
            assert forall|a: int| #[trigger] self.allocator.is_free(a) implies self.memory.covers(a, a + 1) by {
                let i = choose|i: int| 0 <= i < regions@.len() && #[trigger] contributes(regions@[i])
                    && usable_start(regions@[i]) <= a < usable_end(regions@[i]);
            }
            match kernel_image {
                Some((s, e)) => lemma_page_granular_minus(before_reserve, self.allocator, s, e),
                None => {},
            }
        }
        self.phys_window_end = align_up(highest_end, LARGE_PAGE_SIZE);
        Ok(())
    }
}

impl MemoryState {
    /// Frees the usable memory of the boot map and builds the kernel tables:
    /// the identity window with 2 MiB pages, and the framebuffer with 4 KiB
    /// pages when it does not lie inside the window.
    pub fn init(
        &mut self,
        regions: &[MemoryRegion],
        framebuffer_base: u64,
        framebuffer_size: u64,
        kernel_image: Option<(u64, u64)>,
    ) -> (r: Result<(), MemoryError>)
        requires
            old(self).wf(),
            old(self).kernel_space is None,
            old(self).framebuffer_start == 0,
            memory_map_fits(regions@, old(self).memory),
            kernel_image matches Some((s, e)) ==> s as int % PAGE_SIZE as int == 0 && e as int % PAGE_SIZE as int == 0,
            framebuffer_base + framebuffer_size + PAGE_SIZE - 1 <= u64::MAX,
            spec_align_up((framebuffer_base + framebuffer_size) as u64, PAGE_SIZE as u64) <= IDENTITY_LIMIT,
            ({
                let fs = spec_align_down(framebuffer_base, PAGE_SIZE as u64);
                let fe = spec_align_up((framebuffer_base + framebuffer_size) as u64, PAGE_SIZE as u64);
                fs < PHYS_WINDOW_START || fe > window_end_for(regions@) ==> outside_window(fs, fe, window_end_for(regions@))
            }),
        ensures
            final(self).wf(),
            highest_usable_end(regions@, regions@.len() as int) <= PHYS_WINDOW_START
                ==> r == Err::<(), MemoryError>(MemoryError::NoUsableMemory),
            r is Err ==> final(self).kernel_space is None && (r->Err_0 == MemoryError::NoUsableMemory
                || r->Err_0 == MemoryError::AllocatorExhausted),
            r == Err::<(), MemoryError>(MemoryError::AllocatorExhausted) ==> no_free_page(final(self).allocator),
            r == Err::<(), MemoryError>(MemoryError::NoUsableMemory)
                <==> highest_usable_end(regions@, regions@.len() as int) <= PHYS_WINDOW_START,
            r is Ok ==> {
                let fs = spec_align_down(framebuffer_base, PAGE_SIZE as u64);
                let fe = spec_align_up((framebuffer_base + framebuffer_size) as u64, PAGE_SIZE as u64);
                &&& final(self).kernel_space is Some
                &&& final(self).phys_window_end == window_end_for(regions@)
                &&& final(self).framebuffer_start == fs
                &&& final(self).framebuffer_end == fe
                &&& final(self).shared_kernel_mappings@.len() == 0
                &&& window_mapped(final(self).memory, final(self).kernel_space->0.spec_root(), final(self).phys_window_end as int)
                &&& (fs < PHYS_WINDOW_START || fe > final(self).phys_window_end)
                    ==> range_mapped_4k(final(self).memory, final(self).kernel_space->0.spec_root(), fs, fe, kernel_flags(true))
            },
    {
        match self.initialize_allocator(regions, kernel_image) {
            Ok(()) => {},
            Err(error) => return Err(error),
        }
        let ghost alloc_before = self.allocator;
        let root = match take_page(&mut self.allocator, &mut self.memory) {
            Ok(page) => page,
            Err(error) => return Err(error),
        };
        proof {
            assert forall|a: int| root <= a < root + PAGE_SIZE implies #[trigger] self.memory.byte(a) == 0 by {
                assert(alloc_before.is_free(a));
            }
            lemma_fresh_root(self.memory, self.allocator, root);
        }
        let mut builder = AddressSpaceBuilder::new(root, false);
        let mut owned = OwnedPages::empty();
        let window_end = self.phys_window_end;
        let flags = PAGE_PRESENT | PAGE_WRITABLE;
        assert(flags == kernel_flags(true));
        assert(flags & PAGE_PRESENT != 0 && flags == 3) by (bit_vector)
            requires
                flags == 1u64 | 2u64,
                PAGE_PRESENT == 1,
        ;
        assert(spec_align_down(PHYS_WINDOW_START, LARGE_PAGE_SIZE) == PHYS_WINDOW_START);
        assert(spec_align_up(window_end, LARGE_PAGE_SIZE) == window_end);
        match builder.map_identity_2m_range(&mut self.allocator, &mut self.memory, &mut owned, PHYS_WINDOW_START, window_end, flags) {
            Ok(()) => {},
            Err(error) => return Err(error),
        }
        let ghost after_window = self.memory;
        let framebuffer_start = align_down(framebuffer_base, PAGE_SIZE as u64);
        let framebuffer_end = align_up(framebuffer_base + framebuffer_size, PAGE_SIZE as u64);
        if framebuffer_start < PHYS_WINDOW_START || framebuffer_end > window_end {
            proof {
                assert(spec_align_down(framebuffer_start, PAGE_SIZE as u64) == framebuffer_start);
                assert(spec_align_up(framebuffer_end, PAGE_SIZE as u64) == framebuffer_end);
                assert forall|v: u64| framebuffer_start <= v < framebuffer_end
                    implies !#[trigger] huge_on_path(self.memory, root, v) by {}
            }
            match builder.map_identity_4k_range(&mut self.allocator, &mut self.memory, &mut owned,
                framebuffer_start, framebuffer_end, flags) {
                Ok(()) => {},
                Err(error) => return Err(error),
            }
            proof {
                assert forall|a: u64| PHYS_WINDOW_START <= a < window_end
                    implies #[trigger] translate_2m(self.memory, root, a)
                        == Some(((a - a % LARGE_PAGE_SIZE) as u64) | kernel_flags(true) | PAGE_HUGE) by {
                    assert(translate_2m(after_window, root, a) == Some(((a - a % LARGE_PAGE_SIZE) as u64) | flags | PAGE_HUGE));
                    let w = ((a - a % LARGE_PAGE_SIZE) as u64) | flags | PAGE_HUGE;
                    assert(w & PAGE_PRESENT != 0 && w & PAGE_HUGE != 0) by (bit_vector)
                        requires
                            w == ((a - a % LARGE_PAGE_SIZE) as u64) | flags | 0x80u64,
                            flags == 3,
                            PAGE_PRESENT == 1,
                            PAGE_HUGE == 0x80,
                    ;
                    assert(huge_on_path(after_window, root, a));
                }
            }
        }
        self.framebuffer_start = framebuffer_start;
        self.framebuffer_end = framebuffer_end;
        self.kernel_space = Some(AddressSpace::new(root));
        self.kernel_levels = builder.levels;
        Ok(())
    }
}

/// The fields other than the allocator and the memory are as before.
pub open spec fn same_layout(new: MemoryState, old: MemoryState) -> bool {
    &&& new.kernel_space == old.kernel_space
    &&& new.phys_window_end == old.phys_window_end
    &&& new.framebuffer_start == old.framebuffer_start
    &&& new.framebuffer_end == old.framebuffer_end
    &&& new.shared_kernel_mappings@ == old.shared_kernel_mappings@
    &&& new.kernel_levels@ == old.kernel_levels@
    &&& new.memory.spec_base() == old.memory.spec_base()
    &&& new.memory.spec_size() == old.memory.spec_size()
}

/// Every kernel translation is as before.
pub open spec fn kernel_view_kept(new: MemoryState, old: MemoryState) -> bool {
    old.kernel_space matches Some(space) ==> {
        &&& forall|v: u64| #[trigger] translate_4k(new.memory, space.spec_root(), v) == translate_4k(old.memory, space.spec_root(), v)
        &&& forall|v: u64| #[trigger] translate_2m(new.memory, space.spec_root(), v) == translate_2m(old.memory, space.spec_root(), v)
    }
}

/// The shared mappings after recording `[start, end)`: nothing changes for
/// an empty range or one that a recorded range with the same access already
/// covers; otherwise the range is appended, when there is room.
pub open spec fn recorded_mappings(mappings: Seq<SharedKernelMapping>, start: u64, end: u64, writable: bool)
    -> Result<Seq<SharedKernelMapping>, MemoryError> {
    let s = spec_align_down(start, PAGE_SIZE as u64);
    let e = spec_align_up(end, PAGE_SIZE as u64);
    if s >= e {
        Ok(mappings)
    } else if exists|i: int| 0 <= i < mappings.len() && (#[trigger] mappings[i]).start <= s && mappings[i].end >= e
        && mappings[i].writable == writable {
        Ok(mappings)
    } else if mappings.len() >= MAX_SHARED_KERNEL_MAPPINGS {
        Err(MemoryError::SharedKernelMappingCapacityExceeded)
    } else {
        Ok(mappings.push(SharedKernelMapping { start: s as u64, end: e as u64, writable }))
    }
}

impl MemoryState {
    /// The kernel's own address space; the kernel tables must exist.
    pub fn kernel_address_space(&self) -> (r: AddressSpace)
        requires
            self.kernel_space is Some,
        ensures
            r == self.kernel_space->0,
    {
        self.kernel_space.unwrap()
    }

    /// Takes one zeroed page for a kernel structure.
    pub fn allocate_kernel_page(&mut self) -> (r: Result<u64, MemoryError>)
        requires
            old(self).wf(),
        ensures
            final(self).wf(),
            same_layout(*final(self), *old(self)),
            kernel_view_kept(*final(self), *old(self)),
            r is Err <==> forall|i: int| 0 <= i < old(self).allocator.spec_regions().len()
                ==> !region_fits(#[trigger] old(self).allocator.spec_regions()[i], PAGE_SIZE as int),
            match r {
                Ok(page) => {
                    &&& exists|i: int| is_first_fit(old(self).allocator.spec_regions(), PAGE_SIZE as int, i)
                        && old(self).allocator.spec_regions()[i].start == page
                    &&& forall|a: int| #[trigger] final(self).allocator.is_free(a)
                        <==> old(self).allocator.is_free(a) && !(page <= a < page + PAGE_SIZE)
                    &&& forall|a: int| page <= a < page + PAGE_SIZE ==> #[trigger] final(self).memory.byte(a) == 0
                    &&& final(self).memory.same_outside(&old(self).memory, page as int, page + PAGE_SIZE)
                },
                Err(error) => {
                    &&& error == MemoryError::AllocatorExhausted
                    &&& final(self).memory == old(self).memory
                    &&& final(self).allocator.spec_regions() == old(self).allocator.spec_regions()
                },
            },
    {
        let ghost before = *self;
        let result = take_page(&mut self.allocator, &mut self.memory);
        proof {
            if let Ok(page) = result {
                let i = choose|i: int| is_first_fit(before.allocator.spec_regions(), PAGE_SIZE as int, i)
                    && before.allocator.spec_regions()[i].start == page;
                assert(region_fits(before.allocator.spec_regions()[i], PAGE_SIZE as int));
                if let Some(space) = before.kernel_space {
                    lemma_tree_after_take(before.memory, self.memory, before.allocator, self.allocator,
                        space.spec_root(), before.kernel_levels@, page as int, page + PAGE_SIZE);
                    assert forall|v: u64| #[trigger] huge_on_path(self.memory, space.spec_root(), v) && v < IDENTITY_LIMIT
                        implies PHYS_WINDOW_START <= v < self.phys_window_end by {
                        assert(huge_on_path(before.memory, space.spec_root(), v));
                    }
                }
                assert forall|a: int| page <= a < page + PAGE_SIZE implies #[trigger] self.memory.byte(a) == 0 by {
                    assert(before.allocator.is_free(a));
                }
            }
        }
        result
    }

    /// Takes zeroed contiguous pages for a kernel buffer of `size` bytes.
    pub fn allocate_kernel_buffer(&mut self, size: usize) -> (r: Result<KernelBuffer, MemoryError>)
        requires
            old(self).wf(),
            size + PAGE_SIZE - 1 <= u64::MAX,
        ensures
            final(self).wf(),
            same_layout(*final(self), *old(self)),
            kernel_view_kept(*final(self), *old(self)),
            ({
                let count = spec_align_up(size as u64, PAGE_SIZE as u64) / PAGE_SIZE as int;
                match r {
                    Ok(buffer) => {
                        &&& size != 0
                        &&& buffer.spec_len() == size
                        &&& buffer.spec_page_count() == count
                        &&& exists|i: int| is_first_fit(old(self).allocator.spec_regions(), count * PAGE_SIZE, i)
                            && old(self).allocator.spec_regions()[i].start == buffer.spec_start()
                        &&& forall|a: int| #[trigger] final(self).allocator.is_free(a) <==> old(self).allocator.is_free(a)
                            && !(buffer.spec_start() <= a < buffer.spec_start() + count * PAGE_SIZE)
                        &&& forall|a: int| buffer.spec_start() <= a < buffer.spec_start() + count * PAGE_SIZE
                            ==> #[trigger] final(self).memory.byte(a) == 0
                        &&& final(self).memory.covers(buffer.spec_start() as int, buffer.spec_start() + count * PAGE_SIZE)
                        &&& buffer.spec_start() as int % PAGE_SIZE as int == 0
                        &&& forall|a: int| buffer.spec_start() <= a < buffer.spec_start() + count * PAGE_SIZE
                            ==> !#[trigger] in_tables(final(self).kernel_levels@, a)
                    },
                    Err(error) => {
                        &&& final(self).memory == old(self).memory
                        &&& final(self).allocator.spec_regions() == old(self).allocator.spec_regions()
                        &&& size == 0 ==> error == MemoryError::InvalidKernelBufferSize
                        &&& size != 0 ==> error == MemoryError::AllocatorExhausted
                            && forall|i: int| 0 <= i < old(self).allocator.spec_regions().len()
                                ==> !region_fits(#[trigger] old(self).allocator.spec_regions()[i], count * PAGE_SIZE)
                    },
                }
            }),
    {
        if size == 0 {
            return Err(MemoryError::InvalidKernelBufferSize);
        }
        let rounded = align_up(size as u64, PAGE_SIZE as u64);
        proof {
            assert(rounded % 4096 == 0);
            assert(rounded <= size + 4095);
            assert(rounded / 4096 <= size) by (nonlinear_arith)
                requires
                    rounded <= size + 4095,
                    size >= 1,
            ;
        }
        let page_count = (rounded / (PAGE_SIZE as u64)) as usize;
        proof {
            assert(page_count * PAGE_SIZE == rounded);
            assert(page_count == spec_align_up(size as u64, PAGE_SIZE as u64) / PAGE_SIZE as int);
        }
        let ghost before = *self;
        match self.allocator.allocate_contiguous_pages(page_count, &mut self.memory) {
            Ok(start) => {
                proof {
                    let bytes = page_count * PAGE_SIZE;
                    let i = choose|i: int| is_first_fit(before.allocator.spec_regions(), bytes, i)
                        && before.allocator.spec_regions()[i].start == start;
                    before.allocator.lemma_region_starts_aligned(i);
                    assert((start + bytes) % 4096 == 0) by (nonlinear_arith)
                        requires
                            start % 4096 == 0,
                            bytes == page_count * 4096,
                    ;
                    lemma_take_range_granular(before.allocator, self.allocator, start as int, start + bytes);
                    if let Some(space) = before.kernel_space {
                        lemma_tree_after_take(before.memory, self.memory, before.allocator, self.allocator,
                            space.spec_root(), before.kernel_levels@, start as int, start + bytes);
                        assert forall|v: u64| #[trigger] huge_on_path(self.memory, space.spec_root(), v) && v < IDENTITY_LIMIT
                            implies PHYS_WINDOW_START <= v < self.phys_window_end by {
                            assert(huge_on_path(before.memory, space.spec_root(), v));
                        }
                    }
                    assert forall|a: int| start <= a < start + bytes implies #[trigger] self.memory.byte(a) == 0 by {
                        assert(before.allocator.is_free(a));
                    }
                    assert(before.allocator.is_free(start as int));
                    assert(before.allocator.is_free(start + bytes - 1));
                    assert(self.memory.covers(start as int, start + bytes));
                    assert forall|a: int| start <= a < start + bytes implies !#[trigger] in_tables(self.kernel_levels@, a) by {
                        assert(before.allocator.is_free(a));
                        if in_tables(before.kernel_levels@, a) {
                            let t = choose|t: u64| #[trigger] before.kernel_levels@.dom().contains(t) && t <= a < t + PAGE_SIZE;
                            assert(usable_table(before.memory, before.allocator, t));
                        }
                    }
                }
                let buffer = KernelBuffer::new(start, size, page_count);
                proof {
                    assert(context_ok(self.memory, self.allocator));
                    assert(same_layout(*self, before));
                    assert(self.wf());
                }
                Ok(buffer)
            },
            Err(error) => {
                proof {
                    assert forall|a: int| #[trigger] self.allocator.is_free(a) == before.allocator.is_free(a) by {}
                    assert(self.allocator.page_granular());
                    assert(context_ok(self.memory, self.allocator));
                    if let Some(space) = before.kernel_space {
                        lemma_tree_frame(before.memory, self.memory, before.allocator, self.allocator,
                            space.spec_root(), before.kernel_levels@);
                    }
                    assert(self.wf());
                }
                Err(error)
            },
        }
    }
}

/// Every table of `a` lies a whole page away from every table of `b`.
pub open spec fn tables_apart(a: Map<u64, int>, b: Map<u64, int>) -> bool {
    forall|x: u64, y: u64| #[trigger] a.dom().contains(x) && #[trigger] b.dom().contains(y)
        ==> x + PAGE_SIZE <= y || y + PAGE_SIZE <= x
}

/// `a` is identity-mapped by a present 4 KiB entry, writable or not.
pub open spec fn identity_mapped_4k(mem: PhysicalMemory, root: u64, a: u64) -> bool {
    let page = (a - a % (PAGE_SIZE as u64)) as u64;
    translate_4k(mem, root, a) == Some(page | kernel_flags(true))
        || translate_4k(mem, root, a) == Some(page | kernel_flags(false))
}

/// What a builder of a fresh address space may rely on: its tables form a
/// tree with no 2 MiB mapping below the identity limit outside the window,
/// and they lie apart from the kernel tables.
pub open spec fn builder_ready(state: MemoryState, builder: AddressSpaceBuilder) -> bool {
    &&& tree_ok(state.memory, state.allocator, builder.root_paddr, builder.levels@)
    &&& state.kernel_space is Some ==> tables_apart(builder.levels@, state.kernel_levels@)
}

impl MemoryState {
    /// Adds `[start, end)`, widened to page boundaries, to the MMIO ranges
    /// that every new address space maps.
    fn record_shared_kernel_mapping(&mut self, start: u64, end: u64, writable: bool) -> (r: Result<(), MemoryError>)
        requires
            old(self).wf(),
            end + PAGE_SIZE - 1 <= u64::MAX,
            spec_align_up(end, PAGE_SIZE as u64) <= IDENTITY_LIMIT,
            spec_align_down(start, PAGE_SIZE as u64) < spec_align_up(end, PAGE_SIZE as u64) ==> outside_window(
                spec_align_down(start, PAGE_SIZE as u64), spec_align_up(end, PAGE_SIZE as u64), old(self).phys_window_end as int),
        ensures
            final(self).wf(),
            final(self).allocator == old(self).allocator,
            final(self).memory == old(self).memory,
            final(self).kernel_space == old(self).kernel_space,
            final(self).phys_window_end == old(self).phys_window_end,
            final(self).framebuffer_start == old(self).framebuffer_start,
            final(self).framebuffer_end == old(self).framebuffer_end,
            final(self).kernel_levels == old(self).kernel_levels,
            match recorded_mappings(old(self).shared_kernel_mappings@, start, end, writable) {
                Ok(mappings) => r is Ok && final(self).shared_kernel_mappings@ == mappings,
                Err(error) => r == Err::<(), MemoryError>(error) && final(self).shared_kernel_mappings@ == old(self).shared_kernel_mappings@,
            },
    {
        let s = align_down(start, PAGE_SIZE as u64);
        let e = align_up(end, PAGE_SIZE as u64);
        if s >= e {
            return Ok(());
        }
        let mut index: usize = 0;
        while index < self.shared_kernel_mappings.len()
            invariant
                *self == *old(self),
                self.wf(),
                s == spec_align_down(start, PAGE_SIZE as u64),
                e == spec_align_up(end, PAGE_SIZE as u64),
                index <= self.shared_kernel_mappings@.len(),
                forall|i: int| 0 <= i < index ==> !((#[trigger] self.shared_kernel_mappings@[i]).start <= s
                    && self.shared_kernel_mappings@[i].end >= e && self.shared_kernel_mappings@[i].writable == writable),
            decreases self.shared_kernel_mappings@.len() - index,
        {
            let mapping = self.shared_kernel_mappings[index];
            if mapping.start <= s && mapping.end >= e && mapping.writable == writable {
                proof {
                    assert(self.shared_kernel_mappings@[index as int] == mapping);
                }
                return Ok(());
            }
            index += 1;
        }
        if self.shared_kernel_mappings.len() >= MAX_SHARED_KERNEL_MAPPINGS {
            return Err(MemoryError::SharedKernelMappingCapacityExceeded);
        }
        self.shared_kernel_mappings.push(SharedKernelMapping { start: s, end: e, writable });
        proof {
            assert(s as int % 4096 == 0 && e as int % 4096 == 0);
        }
        Ok(())
    }

    /// Identity-maps the MMIO range `[start, end)` into the kernel tables and
    /// records it so that every new address space maps it too.
    pub fn map_kernel_identity_range(&mut self, start: u64, end: u64, writable: bool) -> (r: Result<(), MemoryError>)
        requires
            old(self).wf(),
            end + PAGE_SIZE - 1 <= u64::MAX,
            spec_align_up(end, PAGE_SIZE as u64) <= IDENTITY_LIMIT,
            spec_align_down(start, PAGE_SIZE as u64) < spec_align_up(end, PAGE_SIZE as u64) ==> outside_window(
                spec_align_down(start, PAGE_SIZE as u64), spec_align_up(end, PAGE_SIZE as u64), old(self).phys_window_end as int),
        ensures
            final(self).wf(),
            final(self).kernel_space == old(self).kernel_space,
            final(self).phys_window_end == old(self).phys_window_end,
            final(self).framebuffer_start == old(self).framebuffer_start,
            final(self).framebuffer_end == old(self).framebuffer_end,
            old(self).kernel_space is None ==> r == Err::<(), MemoryError>(MemoryError::AddressSpaceUninitialized)
                && *final(self) == *old(self),
            r is Err && old(self).kernel_space is Some ==> r->Err_0 == MemoryError::AllocatorExhausted
                || (r->Err_0 == MemoryError::SharedKernelMappingCapacityExceeded
                    && recorded_mappings(old(self).shared_kernel_mappings@, start, end, writable) is Err),
            r is Ok ==> {
                let root = final(self).kernel_space->0.spec_root();
                &&& recorded_mappings(old(self).shared_kernel_mappings@, start, end, writable)
                    == Ok::<Seq<SharedKernelMapping>, MemoryError>(final(self).shared_kernel_mappings@)
                &&& range_mapped_4k(final(self).memory, root, spec_align_down(start, PAGE_SIZE as u64),
                    spec_align_up(end, PAGE_SIZE as u64), kernel_flags(writable))
                &&& forall|v: u64| #[trigger] huge_on_path(old(self).memory, root, v)
                    ==> translate_2m(final(self).memory, root, v) == translate_2m(old(self).memory, root, v)
                &&& forall|v: u64| !(spec_align_down(start, PAGE_SIZE as u64) <= v < spec_align_up(end, PAGE_SIZE as u64))
                    && v < IDENTITY_LIMIT && (#[trigger] translate_4k(old(self).memory, root, v)) is Some
                    ==> translate_4k(final(self).memory, root, v) == translate_4k(old(self).memory, root, v)
            },
    {
        let flags = if writable { PAGE_PRESENT | PAGE_WRITABLE } else { PAGE_PRESENT };
        let space = match self.kernel_space {
            Some(space) => space,
            None => return Err(MemoryError::AddressSpaceUninitialized),
        };
        let root = space.root_paddr();
        let mut builder = AddressSpaceBuilder::resume(root, false, self.kernel_levels);
        let mut owned = OwnedPages::empty();
        let ghost before = *self;
        proof {
            assert forall|v: u64| spec_align_down(start, PAGE_SIZE as u64) <= v < spec_align_up(end, PAGE_SIZE as u64)
                implies !#[trigger] huge_on_path(self.memory, root, v) by {}
        }
        let mapped = builder.map_identity_4k_range(&mut self.allocator, &mut self.memory, &mut owned, start, end, flags);
        self.kernel_levels = builder.levels;
        match mapped {
            Ok(()) => {},
            Err(error) => return Err(error),
        }
        self.record_shared_kernel_mapping(start, end, writable)
    }

    /// Maps into a fresh address space what it shares with the kernel: the
    /// identity window, the framebuffer when it lies outside the window, and
    /// every recorded MMIO range.
    pub fn map_shared_kernel_context(&mut self, builder: &mut AddressSpaceBuilder, owned: &mut OwnedPages) -> (r: Result<(), MemoryError>)
        requires
            old(self).wf(),
            old(owned).wf(),
            builder_ready(*old(self), *old(builder)),
            forall|v: u64| !#[trigger] huge_on_path(old(self).memory, old(builder).root_paddr, v),
        ensures
            final(self).wf(),
            same_layout(*final(self), *old(self)),
            kernel_view_kept(*final(self), *old(self)),
            final(owned).wf(),
            owned_grew(final(owned)@, old(owned)@, old(self).allocator, final(self).allocator),
            old(builder).track_owned && (r is Ok || r == Err::<(), MemoryError>(MemoryError::AllocatorExhausted))
                ==> taken_within(old(self).allocator, final(self).allocator, final(owned)@),
            final(builder).root_paddr == old(builder).root_paddr,
            final(builder).track_owned == old(builder).track_owned,
            levels_grow(old(builder).levels@, final(builder).levels@),
            new_tables_were_free(old(builder).levels@, final(builder).levels@, old(self).allocator),
            forall|a: int| #[trigger] final(self).allocator.is_free(a) ==> old(self).allocator.is_free(a),
            r is Ok || !old(builder).track_owned ==> {
                &&& builder_ready(*final(self), *final(builder))
                &&& changed_within(final(self).memory, old(self).memory, final(builder).levels@)
            },
            r is Err ==> r->Err_0 == MemoryError::AllocatorExhausted
                || (old(builder).track_owned && r->Err_0 == MemoryError::OwnedPageCapacityExceeded),
            r == Err::<(), MemoryError>(MemoryError::AllocatorExhausted) ==> no_free_page(final(self).allocator),
            r == Err::<(), MemoryError>(MemoryError::OwnedPageCapacityExceeded) ==> final(owned)@.len() == MAX_OWNED_PAGES,
            final(owned)@.len() <= old(owned)@.len() + context_tables(*old(self)),
            r is Ok ==> {
                let root = final(builder).root_paddr;
                let fs = final(self).framebuffer_start;
                let fe = final(self).framebuffer_end;
                &&& window_mapped(final(self).memory, root, final(self).phys_window_end as int)
                &&& forall|v: u64| #[trigger] huge_on_path(final(self).memory, root, v) && v < IDENTITY_LIMIT
                    ==> PHYS_WINDOW_START <= v < final(self).phys_window_end
                &&& fs != 0 && framebuffer_mapped_apart(fs, fe, final(self).phys_window_end)
                    ==> forall|a: u64| fs <= a < fe ==> #[trigger] identity_mapped_4k(final(self).memory, root, a)
                &&& forall|i: int, a: u64| 0 <= i < final(self).shared_kernel_mappings@.len()
                    && (#[trigger] final(self).shared_kernel_mappings@[i]).start <= a < final(self).shared_kernel_mappings@[i].end
                    ==> #[trigger] identity_mapped_4k(final(self).memory, root, a)
            },
    {
        let ghost before = *self;
        let ghost window_part = 2 * slots_touched(PHYS_WINDOW_START as int, self.phys_window_end as int,
            LARGE_PAGE_SIZE as int, DIRECTORY_SPAN as int);
        let ghost shared_part = shared_tables(self.shared_kernel_mappings@, self.shared_kernel_mappings@.len() as int);
        proof {
            lemma_context_tables_parts(*self);
        }
        let flags = PAGE_PRESENT | PAGE_WRITABLE;
        assert(flags == kernel_flags(true) && flags & PAGE_PRESENT != 0 && flags == 3) by (bit_vector)
            requires
                flags == 1u64 | 2u64,
                PAGE_PRESENT == 1,
        ;
        let window_end = self.phys_window_end;
        assert(spec_align_down(PHYS_WINDOW_START, LARGE_PAGE_SIZE) == PHYS_WINDOW_START);
        assert(spec_align_up(window_end, LARGE_PAGE_SIZE) == window_end);
        let ghost levels0 = builder.levels@;
        let ghost owned0 = owned@;
        match builder.map_identity_2m_range(&mut self.allocator, &mut self.memory, owned, PHYS_WINDOW_START, window_end, flags) {
            Ok(()) => {},
            Err(error) => {
                proof {
                    lemma_kernel_kept(before, *self, levels0, builder.levels@);
                }
                return Err(error);
            },
        }
        proof {
            lemma_kernel_kept(before, *self, levels0, builder.levels@);
        }
        let ghost after_window = *self;
        let ghost levels1 = builder.levels@;
        let ghost owned1 = owned@;
        let framebuffer_start = self.framebuffer_start;
        let framebuffer_end = self.framebuffer_end;
        if framebuffer_start != 0 && (framebuffer_start < PHYS_WINDOW_START || framebuffer_end > window_end) {
            proof {
                assert(spec_align_down(framebuffer_start, PAGE_SIZE as u64) == framebuffer_start);
                assert(spec_align_up(framebuffer_end, PAGE_SIZE as u64) == framebuffer_end);
                assert forall|v: u64| framebuffer_start <= v < framebuffer_end
                    implies !#[trigger] huge_on_path(self.memory, builder.root_paddr, v) by {}
            }
            match builder.map_identity_4k_range(&mut self.allocator, &mut self.memory, owned,
                framebuffer_start, framebuffer_end, flags) {
                Ok(()) => {},
                Err(error) => {
                    proof {
                        crate::memory::paging::lemma_owned_grew_trans(owned0, owned1, owned@, before.allocator,
                            after_window.allocator, self.allocator);
                        lemma_kernel_kept(after_window, *self, levels1, builder.levels@);
                        lemma_new_free_chain(levels0, levels1, builder.levels@, before.allocator, after_window.allocator);
                        if !builder.track_owned {
                            crate::memory::paging::lemma_changed_within_trans(before.memory, after_window.memory,
                                self.memory, levels1, builder.levels@);
                        }
                    }
                    return Err(error);
                },
            }
            proof {
                crate::memory::paging::lemma_owned_grew_trans(owned0, owned1, owned@, before.allocator,
                    after_window.allocator, self.allocator);
                lemma_kernel_kept(after_window, *self, levels1, builder.levels@);
                lemma_new_free_chain(levels0, levels1, builder.levels@, before.allocator, after_window.allocator);
                crate::memory::paging::lemma_changed_within_trans(before.memory, after_window.memory,
                    self.memory, levels1, builder.levels@);
            }
        }
        let ghost before_replay = *self;
        let ghost levels2 = builder.levels@;
        let ghost owned2 = owned@;
        proof {
            let root = builder.root_paddr;
            assert forall|a: u64| PHYS_WINDOW_START <= a < window_end
                implies #[trigger] translate_2m(self.memory, root, a)
                    == Some(((a - a % LARGE_PAGE_SIZE) as u64) | kernel_flags(true) | PAGE_HUGE) by {
                assert(translate_2m(after_window.memory, root, a) == Some(((a - a % LARGE_PAGE_SIZE) as u64) | flags | PAGE_HUGE));
                let w = ((a - a % LARGE_PAGE_SIZE) as u64) | flags | PAGE_HUGE;
                assert(w & PAGE_PRESENT != 0 && w & PAGE_HUGE != 0) by (bit_vector)
                    requires
                        w == ((a - a % LARGE_PAGE_SIZE) as u64) | flags | 0x80u64,
                        flags == 3,
                        PAGE_PRESENT == 1,
                        PAGE_HUGE == 0x80,
                ;
                assert(huge_on_path(after_window.memory, root, a));
            }
            assert forall|v: u64| #[trigger] huge_on_path(self.memory, root, v) && v < IDENTITY_LIMIT
                implies PHYS_WINDOW_START <= v < window_end by {
                assert(huge_on_path(after_window.memory, root, v));
            }
        }
        let result = self.replay_shared_kernel_mappings(builder, owned);
        proof {
            let root = builder.root_paddr;
            crate::memory::paging::lemma_owned_grew_trans(owned0, owned2, owned@, before.allocator,
                before_replay.allocator, self.allocator);
            lemma_new_free_chain(levels0, levels2, builder.levels@, before.allocator, before_replay.allocator);
            if result is Ok || !builder.track_owned {
                crate::memory::paging::lemma_changed_within_trans(before.memory, before_replay.memory, self.memory,
                    levels2, builder.levels@);
            }
            if result is Ok {
                assert forall|a: u64| PHYS_WINDOW_START <= a < window_end
                    implies #[trigger] translate_2m(self.memory, root, a)
                        == Some(((a - a % LARGE_PAGE_SIZE) as u64) | kernel_flags(true) | PAGE_HUGE) by {
                    let w = ((a - a % LARGE_PAGE_SIZE) as u64) | flags | PAGE_HUGE;
                    assert(w & PAGE_PRESENT != 0 && w & PAGE_HUGE != 0) by (bit_vector)
                        requires
                            w == ((a - a % LARGE_PAGE_SIZE) as u64) | flags | 0x80u64,
                            flags == 3,
                            PAGE_PRESENT == 1,
                            PAGE_HUGE == 0x80,
                    ;
                    assert(huge_on_path(before_replay.memory, root, a));
                }
                if framebuffer_start != 0 && framebuffer_mapped_apart(framebuffer_start, framebuffer_end, window_end) {
                    assert forall|a: u64| framebuffer_start <= a < framebuffer_end
                        implies #[trigger] identity_mapped_4k(self.memory, root, a) by {
                        assert(translate_4k(before_replay.memory, root, a) == Some(((a - a % (PAGE_SIZE as u64)) as u64) | flags));
                        assert(identity_mapped_4k(before_replay.memory, root, a));
                    }
                }
            }
        }
        result
    }
}

impl MemoryState {
    /// Identity-maps every recorded MMIO range into the builder's tables.
    fn replay_shared_kernel_mappings(&mut self, builder: &mut AddressSpaceBuilder, owned: &mut OwnedPages) -> (r: Result<(), MemoryError>)
        requires
            old(self).wf(),
            old(owned).wf(),
            builder_ready(*old(self), *old(builder)),
            forall|v: u64| #[trigger] huge_on_path(old(self).memory, old(builder).root_paddr, v) && v < IDENTITY_LIMIT
                ==> PHYS_WINDOW_START <= v < old(self).phys_window_end,
        ensures
            final(self).wf(),
            same_layout(*final(self), *old(self)),
            kernel_view_kept(*final(self), *old(self)),
            final(owned).wf(),
            owned_grew(final(owned)@, old(owned)@, old(self).allocator, final(self).allocator),
            old(builder).track_owned && (r is Ok || r == Err::<(), MemoryError>(MemoryError::AllocatorExhausted))
                ==> taken_within(old(self).allocator, final(self).allocator, final(owned)@),
            final(builder).root_paddr == old(builder).root_paddr,
            final(builder).track_owned == old(builder).track_owned,
            levels_grow(old(builder).levels@, final(builder).levels@),
            new_tables_were_free(old(builder).levels@, final(builder).levels@, old(self).allocator),
            forall|a: int| #[trigger] final(self).allocator.is_free(a) ==> old(self).allocator.is_free(a),
            r is Ok || !old(builder).track_owned ==> {
                &&& builder_ready(*final(self), *final(builder))
                &&& changed_within(final(self).memory, old(self).memory, final(builder).levels@)
            },
            r is Err ==> r->Err_0 == MemoryError::AllocatorExhausted
                || (old(builder).track_owned && r->Err_0 == MemoryError::OwnedPageCapacityExceeded),
            r == Err::<(), MemoryError>(MemoryError::AllocatorExhausted) ==> no_free_page(final(self).allocator),
            r == Err::<(), MemoryError>(MemoryError::OwnedPageCapacityExceeded) ==> final(owned)@.len() == MAX_OWNED_PAGES,
            final(owned)@.len() <= old(owned)@.len()
                + shared_tables(old(self).shared_kernel_mappings@, old(self).shared_kernel_mappings@.len() as int),
            r is Ok ==> {
                let root = final(builder).root_paddr;
                &&& forall|v: u64| #[trigger] huge_on_path(old(self).memory, root, v)
                    ==> translate_2m(final(self).memory, root, v) == translate_2m(old(self).memory, root, v)
                &&& forall|v: u64| #[trigger] huge_on_path(final(self).memory, root, v)
                    ==> huge_on_path(old(self).memory, root, v)
                &&& forall|a: u64| a < IDENTITY_LIMIT && #[trigger] identity_mapped_4k(old(self).memory, root, a)
                    ==> identity_mapped_4k(final(self).memory, root, a)
                &&& forall|i: int, a: u64| 0 <= i < final(self).shared_kernel_mappings@.len()
                    && (#[trigger] final(self).shared_kernel_mappings@[i]).start <= a < final(self).shared_kernel_mappings@[i].end
                    ==> #[trigger] identity_mapped_4k(final(self).memory, root, a)
            },
    {
        let ghost start_state = *self;
        let ghost levels0 = builder.levels@;
        let root = builder.root_paddr;
        let mut index: usize = 0;
        proof {
            crate::memory::paging::lemma_owned_grew_refl(owned@, self.allocator, self.allocator);
            lemma_taken_within_none(self.allocator, self.allocator, owned@);
        }
        while index < self.shared_kernel_mappings.len()
            invariant
                self.wf(),
                same_layout(*self, start_state),
                kernel_view_kept(*self, start_state),
                owned.wf(),
                owned_grew(owned@, old(owned)@, start_state.allocator, self.allocator),
                builder.track_owned ==> taken_within(start_state.allocator, self.allocator, owned@),
                builder.root_paddr == root,
                root == old(builder).root_paddr,
                builder.track_owned == old(builder).track_owned,
                start_state == *old(self),
                levels0 == old(builder).levels@,
                index <= self.shared_kernel_mappings@.len(),
                levels_grow(levels0, builder.levels@),
                new_tables_were_free(levels0, builder.levels@, start_state.allocator),
                forall|a: int| #[trigger] self.allocator.is_free(a) ==> start_state.allocator.is_free(a),
                builder_ready(*self, *builder),
                changed_within(self.memory, start_state.memory, builder.levels@),
                forall|v: u64| #[trigger] huge_on_path(start_state.memory, root, v)
                    ==> translate_2m(self.memory, root, v) == translate_2m(start_state.memory, root, v),
                forall|v: u64| #[trigger] huge_on_path(self.memory, root, v) ==> huge_on_path(start_state.memory, root, v),
                forall|a: u64| a < IDENTITY_LIMIT && #[trigger] identity_mapped_4k(start_state.memory, root, a)
                    ==> identity_mapped_4k(self.memory, root, a),
                forall|i: int, a: u64| 0 <= i < index
                    && (#[trigger] self.shared_kernel_mappings@[i]).start <= a < self.shared_kernel_mappings@[i].end
                    ==> #[trigger] identity_mapped_4k(self.memory, root, a),
                forall|v: u64| #[trigger] huge_on_path(start_state.memory, root, v) && v < IDENTITY_LIMIT
                    ==> PHYS_WINDOW_START <= v < start_state.phys_window_end,
                owned@.len() <= old(owned)@.len() + shared_tables(self.shared_kernel_mappings@, index as int),
            decreases self.shared_kernel_mappings@.len() - index,
        {
            let mapping = self.shared_kernel_mappings[index];
            let flags = if mapping.writable { PAGE_PRESENT | PAGE_WRITABLE } else { PAGE_PRESENT };
            let ghost before = *self;
            let ghost levels_before = builder.levels@;
            let ghost owned_before = owned@;
            proof {
                assert(flags == kernel_flags(mapping.writable));
                assert(page_range_ok(mapping.start as int, mapping.end as int));
                assert(spec_align_down(mapping.start, PAGE_SIZE as u64) == mapping.start);
                assert(spec_align_up(mapping.end, PAGE_SIZE as u64) == mapping.end);
                assert forall|v: u64| mapping.start <= v < mapping.end implies !#[trigger] huge_on_path(self.memory, root, v) by {
                    if huge_on_path(self.memory, root, v) {
                        assert(huge_on_path(start_state.memory, root, v));
                    }
                }
            }
            let mapped = builder.map_identity_4k_range(&mut self.allocator, &mut self.memory, owned,
                mapping.start, mapping.end, flags);
            proof {
                crate::memory::paging::lemma_owned_grew_trans(old(owned)@, owned_before, owned@, start_state.allocator,
                    before.allocator, self.allocator);
                if builder.track_owned && (mapped is Ok || mapped == Err::<(), MemoryError>(MemoryError::AllocatorExhausted)) {
                    lemma_taken_within_trans(start_state.allocator, before.allocator, self.allocator, owned_before, owned@);
                }
                lemma_kernel_kept(before, *self, levels_before, builder.levels@);
                lemma_new_free_chain(levels0, levels_before, builder.levels@, start_state.allocator, before.allocator);
                if mapped is Ok || !builder.track_owned {
                    crate::memory::paging::lemma_changed_within_trans(start_state.memory, before.memory,
                        self.memory, levels_before, builder.levels@);
                }
                assert(owned@.len() <= old(owned)@.len() + shared_tables(self.shared_kernel_mappings@, index + 1));
                lemma_shared_tables_grow(self.shared_kernel_mappings@, index + 1, self.shared_kernel_mappings@.len() as int);
            }
            match mapped {
                Ok(()) => {},
                Err(error) => return Err(error),
            }
            proof {
                assert forall|v: u64| #[trigger] huge_on_path(start_state.memory, root, v)
                    implies translate_2m(self.memory, root, v) == translate_2m(start_state.memory, root, v) by {
                    assert(huge_on_path(before.memory, root, v));
                }
                assert forall|a: u64| a < IDENTITY_LIMIT && #[trigger] identity_mapped_4k(start_state.memory, root, a)
                    implies identity_mapped_4k(self.memory, root, a) by {
                    assert(identity_mapped_4k(before.memory, root, a));
                    lemma_identity_kept(before.memory, self.memory, root, mapping.start, mapping.end, flags, a);
                }
                assert forall|i: int, a: u64| 0 <= i < index + 1
                    && (#[trigger] self.shared_kernel_mappings@[i]).start <= a < self.shared_kernel_mappings@[i].end
                    implies #[trigger] identity_mapped_4k(self.memory, root, a) by {
                    if i < index {
                        assert(identity_mapped_4k(before.memory, root, a));
                        assert(page_range_ok(self.shared_kernel_mappings@[i].start as int, self.shared_kernel_mappings@[i].end as int));
                        lemma_identity_kept(before.memory, self.memory, root, mapping.start, mapping.end, flags, a);
                    } else {
                        assert(translate_4k(self.memory, root, a) == Some(((a - a % (PAGE_SIZE as u64)) as u64) | flags));
                    }
                }
            }
            index += 1;
        }
        Ok(())
    }
}

/// An identity mapping below the identity limit survives an identity 4 KiB
/// range: outside the range it is untouched, inside it is mapped again.
proof fn lemma_identity_kept(before: PhysicalMemory, after: PhysicalMemory, root: u64, start: u64, end: u64, flags: u64, a: u64)
    requires
        a < IDENTITY_LIMIT,
        end <= IDENTITY_LIMIT,
        flags == kernel_flags(true) || flags == kernel_flags(false),
        identity_mapped_4k(before, root, a),
        forall|x: u64| start <= x < end
            ==> #[trigger] translate_4k(after, root, x) == Some(((x - x % (PAGE_SIZE as u64)) as u64) | flags),
        forall|v: u64| !(start <= v < end) && v < IDENTITY_LIMIT && (#[trigger] translate_4k(before, root, v)) is Some
            ==> translate_4k(after, root, v) == translate_4k(before, root, v),
    ensures
        identity_mapped_4k(after, root, a),
{
    if start <= a < end {
        assert(translate_4k(after, root, a) == Some(((a - a % (PAGE_SIZE as u64)) as u64) | flags));
    } else {
        assert(translate_4k(before, root, a) is Some);
    }
}

/// Address `a` lies in one of the pages that start at `pages`.
pub open spec fn in_pages(pages: Seq<u64>, a: int) -> bool {
    exists|i: int| 0 <= i < pages.len() && #[trigger] pages[i] <= a < pages[i] + PAGE_SIZE
}

impl MemoryState {
    /// Returns pages to the free memory, one at a time. A page joins the
    /// free ranges when the list has room for it or a range touches it; the
    /// others stay allocated. Where the list has room for one more range per
    /// page, every page is freed.
    pub fn release_pages(&mut self, pages: &OwnedPages)
        requires
            old(self).wf(),
            forall|i: int| 0 <= i < pages@.len() ==> {
                let p = #[trigger] pages@[i];
                &&& p as int % PAGE_SIZE as int == 0
                &&& old(self).memory.covers(p as int, p + PAGE_SIZE)
                &&& forall|a: int| p <= a < p + PAGE_SIZE ==> !#[trigger] in_tables(old(self).kernel_levels@, a)
            },
        ensures
            final(self).wf(),
            same_layout(*final(self), *old(self)),
            final(self).memory == old(self).memory,
            kernel_view_kept(*final(self), *old(self)),
            forall|a: int| #[trigger] old(self).allocator.is_free(a) ==> final(self).allocator.is_free(a),
            forall|a: int| #[trigger] final(self).allocator.is_free(a) ==> old(self).allocator.is_free(a) || in_pages(pages@, a),
            old(self).allocator.spec_regions().len() + pages@.len() <= MAX_FREE_RANGES ==> forall|a: int|
                in_pages(pages@, a) ==> #[trigger] final(self).allocator.is_free(a),
    {
        let mut index: usize = 0;
        let ghost start = *self;
        while index < pages.len()
            invariant
                self.wf(),
                same_layout(*self, start),
                self.memory == start.memory,
                start == *old(self),
                kernel_view_kept(*self, start),
                index <= pages@.len(),
                forall|i: int| 0 <= i < pages@.len() ==> {
                    let p = #[trigger] pages@[i];
                    &&& p as int % PAGE_SIZE as int == 0
                    &&& start.memory.covers(p as int, p + PAGE_SIZE)
                    &&& forall|a: int| p <= a < p + PAGE_SIZE ==> !#[trigger] in_tables(start.kernel_levels@, a)
                },
                forall|a: int| #[trigger] start.allocator.is_free(a) ==> self.allocator.is_free(a),
                forall|a: int| #[trigger] self.allocator.is_free(a) ==> start.allocator.is_free(a) || in_pages(pages@, a),
                self.allocator.spec_regions().len() <= start.allocator.spec_regions().len() + index,
                start.allocator.spec_regions().len() + pages@.len() <= MAX_FREE_RANGES ==> forall|i: int, a: int|
                    #![trigger pages@[i], self.allocator.is_free(a)]
                    0 <= i < index && pages@[i] <= a < pages@[i] + PAGE_SIZE ==> self.allocator.is_free(a),
            decreases pages@.len() - index,
        {
            let page = pages.page(index);
            let ghost before = *self;
            proof {
                assert(page + PAGE_SIZE <= IDENTITY_LIMIT);
            }
            if self.allocator.can_free(page, page + PAGE_SIZE as u64) {
                self.allocator.free_contiguous_pages(page, 1);
                proof {
                    lemma_release_keeps(before, *self, page, pages@, index as int);
                }
            }
            index += 1;
        }
        proof {
            if start.allocator.spec_regions().len() + pages@.len() <= MAX_FREE_RANGES {
                assert forall|a: int| in_pages(pages@, a) implies #[trigger] self.allocator.is_free(a) by {
                    let i = choose|i: int| 0 <= i < pages@.len() && #[trigger] pages@[i] <= a < pages@[i] + PAGE_SIZE;
                    assert(pages@[i] <= a < pages@[i] + PAGE_SIZE);
                }
            }
        }
    }
}

/// `buffer` can go back to the free memory of `state`: its pages are
/// aligned, lie in memory and hold no kernel table, and the free list has
/// room for one more range or a range touches them.
pub open spec fn buffer_releasable(state: MemoryState, buffer: KernelBuffer) -> bool {
    let start = buffer.spec_start() as int;
    let end = buffer.spec_start() + buffer.spec_page_count() * PAGE_SIZE;
    &&& start % PAGE_SIZE as int == 0
    &&& end <= u64::MAX
    &&& state.memory.covers(start, end)
    &&& forall|a: int| start <= a < end ==> !#[trigger] in_tables(state.kernel_levels@, a)
    &&& buffer.spec_page_count() != 0 ==> state.allocator.spec_regions().len() < MAX_FREE_RANGES
        || exists|i: int| 0 <= i < state.allocator.spec_regions().len()
            && #[trigger] region_touches(state.allocator.spec_regions()[i], start, end)
}

impl MemoryState {
    /// Returns the pages of a kernel buffer to the free memory. The free
    /// list must have room for one more range, or a range must touch the
    /// buffer's pages.
    pub fn release_kernel_buffer(&mut self, buffer: KernelBuffer)
        requires
            old(self).wf(),
            buffer_releasable(*old(self), buffer),
        ensures
            final(self).wf(),
            same_layout(*final(self), *old(self)),
            final(self).memory == old(self).memory,
            kernel_view_kept(*final(self), *old(self)),
            forall|a: int| #[trigger] final(self).allocator.is_free(a) <==> old(self).allocator.is_free(a)
                || buffer.spec_start() <= a < buffer.spec_start() + buffer.spec_page_count() * PAGE_SIZE,
    {
        let ghost before = *self;
        let start = buffer.start_paddr();
        let count = buffer.page_count();
        self.allocator.free_contiguous_pages(start, count);
        proof {
            lemma_release_range_keeps(before, *self, start as int, start + count * PAGE_SIZE);
        }
    }
}

/// Freeing aligned pages that lie in memory and hold no kernel table keeps
/// the kernel state well formed.
proof fn lemma_release_range_keeps(before: MemoryState, after: MemoryState, start: int, end: int)
    requires
        before.wf(),
        same_layout(after, before),
        after.memory == before.memory,
        after.allocator.wf(),
        start % PAGE_SIZE as int == 0,
        end % PAGE_SIZE as int == 0,
        before.memory.covers(start, end),
        forall|a: int| start <= a < end ==> !#[trigger] in_tables(before.kernel_levels@, a),
        forall|a: int| #[trigger] after.allocator.is_free(a) <==> before.allocator.is_free(a) || start <= a < end,
    ensures
        after.wf(),
        kernel_view_kept(after, before),
{
    assert forall|a: int, b: int| #[trigger] after.allocator.is_free(a) && a - a % PAGE_SIZE as int <= b
        < a - a % PAGE_SIZE as int + PAGE_SIZE implies #[trigger] after.allocator.is_free(b) by {
        if start <= a < end {
            assert(start <= b < end) by (nonlinear_arith)
                requires
                    start % 4096 == 0,
                    end % 4096 == 0,
                    start <= a < end,
                    a - a % 4096 <= b < a - a % 4096 + 4096,
            ;
        } else {
            assert(before.allocator.is_free(b));
        }
    }
    if let Some(space) = before.kernel_space {
        let kernel = before.kernel_levels@;
        assert forall|t: u64| #[trigger] kernel.dom().contains(t) implies usable_table(after.memory, after.allocator, t) by {
            assert(usable_table(before.memory, before.allocator, t));
            assert forall|a: int| t <= a < t + PAGE_SIZE implies !#[trigger] after.allocator.is_free(a) by {
                assert(!before.allocator.is_free(a));
                if start <= a < end {
                    assert(in_tables(kernel, a));
                }
            }
        }
        assert(tree_ok(after.memory, after.allocator, space.spec_root(), kernel));
    }
}

/// Freeing one aligned page that lies in memory and holds no kernel table
/// keeps the kernel state well formed.
proof fn lemma_release_keeps(before: MemoryState, after: MemoryState, page: u64, pages: Seq<u64>, index: int)
    requires
        before.wf(),
        same_layout(after, before),
        after.memory == before.memory,
        after.allocator.wf(),
        page as int % PAGE_SIZE as int == 0,
        before.memory.covers(page as int, page + PAGE_SIZE),
        forall|a: int| page <= a < page + PAGE_SIZE ==> !#[trigger] in_tables(before.kernel_levels@, a),
        forall|a: int| #[trigger] after.allocator.is_free(a) <==> before.allocator.is_free(a) || page <= a < page + PAGE_SIZE,
        0 <= index < pages.len(),
        pages[index] == page,
    ensures
        after.wf(),
        kernel_view_kept(after, before),
        forall|a: int| #[trigger] after.allocator.is_free(a) ==> before.allocator.is_free(a) || in_pages(pages, a),
{
    assert forall|a: int, b: int| #[trigger] after.allocator.is_free(a) && a - a % PAGE_SIZE as int <= b
        < a - a % PAGE_SIZE as int + PAGE_SIZE implies #[trigger] after.allocator.is_free(b) by {
        if page <= a < page + PAGE_SIZE {
            assert(page <= b < page + PAGE_SIZE) by (nonlinear_arith)
                requires
                    page % 4096 == 0,
                    page <= a < page + 4096,
                    a - a % 4096 <= b < a - a % 4096 + 4096,
            ;
        } else {
            assert(before.allocator.is_free(b));
        }
    }
    assert forall|a: int| #[trigger] after.allocator.is_free(a) implies before.allocator.is_free(a) || in_pages(pages, a) by {
        if page <= a < page + PAGE_SIZE {
            assert(pages[index] <= a < pages[index] + PAGE_SIZE);
        }
    }
    if let Some(space) = before.kernel_space {
        let kernel = before.kernel_levels@;
        assert forall|t: u64| #[trigger] kernel.dom().contains(t) implies usable_table(after.memory, after.allocator, t) by {
            assert(usable_table(before.memory, before.allocator, t));
            assert forall|a: int| t <= a < t + PAGE_SIZE implies !#[trigger] after.allocator.is_free(a) by {
                assert(!before.allocator.is_free(a));
                if page <= a < page + PAGE_SIZE {
                    assert(in_tables(kernel, a));
                }
            }
        }
        assert(tree_ok(after.memory, after.allocator, space.spec_root(), kernel));
    }
}

/// Tables added over two steps were free at the start.
proof fn lemma_new_free_chain(
    l0: Map<u64, int>,
    l1: Map<u64, int>,
    l2: Map<u64, int>,
    a0: PhysicalAllocator,
    a1: PhysicalAllocator,
)
    requires
        new_tables_were_free(l0, l1, a0),
        new_tables_were_free(l1, l2, a1),
        forall|a: int| #[trigger] a1.is_free(a) ==> a0.is_free(a),
    ensures
        new_tables_were_free(l0, l2, a0),
{
    crate::memory::paging::lemma_new_free_trans(l0, l1, l2, a0, a1);
}

/// A builder step that only writes its own tables, which lie apart from the
/// kernel tables, and only takes free memory keeps the kernel tree, every
/// kernel translation and the separation of the two.
pub proof fn lemma_kernel_kept(before: MemoryState, after: MemoryState, levels0: Map<u64, int>, levels1: Map<u64, int>)
    requires
        before.wf(),
        same_layout(after, before),
        context_ok(after.memory, after.allocator),
        before.kernel_space is Some ==> tables_apart(levels0, before.kernel_levels@),
        touched_only(after.memory, before.memory, levels1, before.allocator),
        new_tables_were_free(levels0, levels1, before.allocator),
        forall|a: int| #[trigger] after.allocator.is_free(a) ==> before.allocator.is_free(a),
    ensures
        after.wf(),
        kernel_view_kept(after, before),
        before.kernel_space is Some ==> tables_apart(levels1, before.kernel_levels@),
{
    if let Some(space) = before.kernel_space {
        let kernel = before.kernel_levels@;
        assert forall|x: u64, y: u64| #[trigger] levels1.dom().contains(x) && #[trigger] kernel.dom().contains(y)
            implies x + PAGE_SIZE <= y || y + PAGE_SIZE <= x by {
            if !levels0.dom().contains(x) {
                assert(usable_table(before.memory, before.allocator, y));
                assert forall|a: int| x <= a < x + PAGE_SIZE implies #[trigger] before.allocator.is_free(a) by {}
                if !(x + PAGE_SIZE <= y || y + PAGE_SIZE <= x) {
                    if x <= y {
                        assert(before.allocator.is_free(y as int));
                    } else {
                        assert(before.allocator.is_free(x as int));
                    }
                }
            }
        }
        assert forall|a: int| in_tables(kernel, a) implies #[trigger] after.memory.byte(a) == before.memory.byte(a) by {
            let y = choose|y: u64| #[trigger] kernel.dom().contains(y) && y <= a < y + PAGE_SIZE;
            assert(usable_table(before.memory, before.allocator, y));
            assert(before.memory.covers(a, a + 1));
            assert(!before.allocator.is_free(a));
            if in_tables(levels1, a) {
                let x = choose|x: u64| #[trigger] levels1.dom().contains(x) && x <= a < x + PAGE_SIZE;
                assert(x + PAGE_SIZE <= y || y + PAGE_SIZE <= x);
            }
        }
        lemma_tree_frame(before.memory, after.memory, before.allocator, after.allocator, space.spec_root(), kernel);
        assert forall|v: u64| #[trigger] huge_on_path(after.memory, space.spec_root(), v) && v < IDENTITY_LIMIT
            implies PHYS_WINDOW_START <= v < after.phys_window_end by {
            assert(huge_on_path(before.memory, space.spec_root(), v));
        }
    }
}

/// Taking an aligned run of pages out of page-granular free memory leaves it
/// page-granular, and what stays free is still backed by memory.
proof fn lemma_take_range_granular(before: PhysicalAllocator, after: PhysicalAllocator, lo: int, hi: int)
    requires
        before.page_granular(),
        lo % PAGE_SIZE as int == 0,
        hi % PAGE_SIZE as int == 0,
        forall|a: int| #[trigger] after.is_free(a) <==> before.is_free(a) && !(lo <= a < hi),
    ensures
        after.page_granular(),
{
    assert forall|a: int, b: int| #[trigger] after.is_free(a) && a - a % PAGE_SIZE as int <= b < a - a % PAGE_SIZE as int + PAGE_SIZE
        implies #[trigger] after.is_free(b) by {
        assert(before.is_free(b));
        if lo <= b < hi {
            assert(lo <= a < hi) by (nonlinear_arith)
                requires
                    lo % 4096 == 0,
                    hi % 4096 == 0,
                    lo <= b < hi,
                    a - a % 4096 <= b < a - a % 4096 + 4096,
            ;
        }
    }
}

/// The highest usable end is at least the end of every contributing region
/// and above the window start once any region contributes.
proof fn lemma_highest_bounds(regions: Seq<MemoryRegion>, n: int, i: int)
    requires
        0 <= i < n <= regions.len(),
        contributes(regions[i]),
    ensures
        highest_usable_end(regions, n) >= usable_end(regions[i]),
        highest_usable_end(regions, n) > PHYS_WINDOW_START,
    decreases n,
{
    if i < n - 1 {
        lemma_highest_bounds(regions, n - 1, i);
    }
}

/// The highest usable end is a page boundary inside the physical window.
proof fn lemma_highest_in_memory(regions: Seq<MemoryRegion>, n: int, memory: PhysicalMemory)
    requires
        0 <= n <= regions.len(),
        memory_map_fits(regions, memory),
        memory.spec_base() + memory.spec_size() <= IDENTITY_LIMIT,
    ensures
        0 <= highest_usable_end(regions, n) <= IDENTITY_LIMIT,
        highest_usable_end(regions, n) % PAGE_SIZE as int == 0,
    decreases n,
{
    if n > 0 {
        lemma_highest_in_memory(regions, n - 1, memory);
        let r = regions[n - 1];
        if contributes(r) {
            assert(memory.covers(usable_start(r), usable_end(r)));
        }
    }
}

/// Free memory made of whole usable regions is page-granular.
proof fn lemma_usable_page_granular(regions: Seq<MemoryRegion>, alloc: PhysicalAllocator)
    requires
        forall|i: int| 0 <= i < regions.len() && (#[trigger] regions[i]).kind == MemoryRegionKind::Usable
            ==> regions[i].start as int % PAGE_SIZE as int == 0,
        forall|a: int| #[trigger] alloc.is_free(a) <==> in_usable_memory(regions, regions.len() as int, a),
    ensures
        alloc.page_granular(),
{
    assert forall|a: int, b: int| #[trigger] alloc.is_free(a) && a - a % PAGE_SIZE as int <= b < a - a % PAGE_SIZE as int + PAGE_SIZE
        implies #[trigger] alloc.is_free(b) by {
        let i = choose|i: int| 0 <= i < regions.len() && #[trigger] contributes(regions[i])
            && usable_start(regions[i]) <= a < usable_end(regions[i]);
        let r = regions[i];
        let us = usable_start(r);
        let ue = usable_end(r);
        assert(us % 4096 == 0);
        assert(ue % 4096 == 0);
        assert(us <= a - a % 4096 && a - a % 4096 + 4096 <= ue) by (nonlinear_arith)
            requires
                us % 4096 == 0,
                ue % 4096 == 0,
                us <= a < ue,
        ;
        assert(in_usable_memory(regions, regions.len() as int, b));
    }
}

/// Taking an aligned range out of page-granular free memory leaves it
/// page-granular.
proof fn lemma_page_granular_minus(before: PhysicalAllocator, after: PhysicalAllocator, s: u64, e: u64)
    requires
        before.page_granular(),
        s as int % PAGE_SIZE as int == 0,
        e as int % PAGE_SIZE as int == 0,
        forall|a: int| #[trigger] after.is_free(a) <==> before.is_free(a) && !(s <= a < e),
    ensures
        after.page_granular(),
{
    assert forall|a: int, b: int| #[trigger] after.is_free(a) && a - a % PAGE_SIZE as int <= b < a - a % PAGE_SIZE as int + PAGE_SIZE
        implies #[trigger] after.is_free(b) by {
        assert(before.is_free(b));
        if s <= b < e {
            assert(s <= a < e) by (nonlinear_arith)
                requires
                    s % 4096 == 0,
                    e % 4096 == 0,
                    s <= b < e,
                    a - a % 4096 <= b < a - a % 4096 + 4096,
            ;
        }
    }
}

} // verus!
