//! Shared memory-subsystem types: address spaces, owned page lists, kernel
//! buffers and the error type raised while building page tables or loading a
//! user image.
use vstd::prelude::*;

use crate::elf::{ElfError, elf_error_as_str, elf_error_message};
use crate::memory::allocator::PhysicalAllocator;
use crate::memory::phys::PhysicalMemory;
use crate::memory::kernel::{buffer_releasable, same_layout, kernel_view_kept, MemoryState};

verus! {

pub const PAGE_SIZE: usize = 4096;
pub const USER_IMAGE_BASE: u64 = 0x0000_0000_0040_0000;
pub const USER_STACK_TOP: u64 = 0x0000_0000_0080_0000;
pub const USER_STACK_PAGES: usize = 16;
/// Lowest address of the fixed user stack.
pub const USER_STACK_BASE: u64 = 0x0000_0000_007f_0000;

/// The user stack is the `USER_STACK_PAGES` pages below `USER_STACK_TOP`.
pub proof fn lemma_user_stack_base()
    ensures
        USER_STACK_BASE == USER_STACK_TOP - USER_STACK_PAGES * PAGE_SIZE,
        MAX_OWNED_PAGES == MAX_SEGMENT_PAGES + USER_STACK_PAGES + 32,
{
}

pub const MAX_SEGMENT_PAGES: usize = 128;
pub const MAX_FREE_RANGES: usize = 128;
pub const MAX_OWNED_PAGES: usize = 176;
pub const MAX_SHARED_KERNEL_MAPPINGS: usize = 16;
pub const MAX_STARTUP_ARGS: usize = 32;
pub const PAGE_PRESENT: u64 = 1;
pub const PAGE_WRITABLE: u64 = 2;
pub const PAGE_USER: u64 = 4;
pub const PAGE_HUGE: u64 = 0x80;
pub const PAGE_TABLE_FLAGS: u64 = 3;
pub const PHYS_WINDOW_START: u64 = 0x0000_0000_0100_0000;
pub const LARGE_PAGE_SIZE: u64 = 0x20_0000;

/// Page-table root for either the kernel or a user process.
#[derive(Clone, Copy, PartialEq, Eq, Structural)]
pub struct AddressSpace {
    root_paddr: u64,
}

impl AddressSpace {
    pub closed spec fn spec_root(self) -> u64 {
        self.root_paddr
    }

    pub fn new(root_paddr: u64) -> (r: Self)
        ensures
            r.spec_root() == root_paddr,
    {
        Self { root_paddr }
    }

    pub fn root_paddr(self) -> (r: u64)
        ensures
            r == self.spec_root(),
    {
        self.root_paddr
    }
}

/// Result of loading one user ELF into a newly created address space.
pub struct LoadedUserProgram {
    pub address_space: AddressSpace,
    pub entry_point: u64,
    pub user_stack_top: u64,
    pub owned_pages: OwnedPages,
}

/// Startup data made visible to a new user process: its program path and
/// the NUL-terminated arguments that follow it.
pub struct ProgramStartup<'a> {
    pub argv0: &'a str,
    pub argv_tail: &'a [u8],
}

/// Physical pages owned by one user process image.
pub struct OwnedPages {
    pages: Vec<u64>,
}

impl View for OwnedPages {
    type V = Seq<u64>;

    closed spec fn view(&self) -> Seq<u64> {
        self.pages@
    }
}

impl OwnedPages {
    /// Well-formed page lists never exceed the fixed ownership capacity.
    pub open spec fn wf(&self) -> bool {
        self@.len() <= MAX_OWNED_PAGES
    }

    pub fn empty() -> (r: Self)
        ensures
            r@ == Seq::<u64>::empty(),
            r.wf(),
    {
        Self { pages: Vec::new() }
    }

    pub fn len(&self) -> (r: usize)
        ensures
            r == self@.len(),
    {
        self.pages.len()
    }

    pub fn page(&self, index: usize) -> (r: u64)
        requires
            index < self@.len(),
        ensures
            r == self@[index as int],
    {
        self.pages[index]
    }

    /// Records one more owned page, failing once the capacity is reached.
    pub fn push(&mut self, page: u64) -> (r: Result<(), MemoryError>)
        requires
            old(self).wf(),
        ensures
            final(self).wf(),
            old(self)@.len() < MAX_OWNED_PAGES ==> r is Ok && final(self)@ == old(self)@.push(page),
            old(self)@.len() >= MAX_OWNED_PAGES ==> r == Err::<(), MemoryError>(MemoryError::OwnedPageCapacityExceeded)
                && final(self)@ == old(self)@,
    {
        if self.pages.len() >= MAX_OWNED_PAGES {
            return Err(MemoryError::OwnedPageCapacityExceeded);
        }
        self.pages.push(page);
        Ok(())
    }
}

/// Whether address `a` lies in one of the 4 KiB pages starting at `pages`.
pub open spec fn in_owned_page(pages: Seq<u64>, a: int) -> bool {
    exists|i: int| 0 <= i < pages.len() && #[trigger] pages[i] <= a < pages[i] + PAGE_SIZE
}

impl OwnedPages {
    /// Returns every owned page to the allocator. Each page adds at most one
    /// free range, so the allocator needs room for as many ranges as pages.
    pub fn release(self, allocator: &mut PhysicalAllocator)
        requires
            old(allocator).wf(),
            old(allocator).spec_regions().len() + self@.len() <= MAX_FREE_RANGES,
            forall|i: int| 0 <= i < self@.len() ==> #[trigger] self@[i] + PAGE_SIZE <= u64::MAX,
        ensures
            final(allocator).wf(),
            forall|a: int| #[trigger] final(allocator).is_free(a) <==> old(allocator).is_free(a) || in_owned_page(self@, a),
    {
        let mut index: usize = 0;
        while index < self.pages.len()
            invariant
                allocator.wf(),
                index <= self@.len(),
                self@.len() == self.pages@.len(),
                allocator.spec_regions().len() + (self@.len() - index) <= MAX_FREE_RANGES,
                forall|i: int| 0 <= i < self@.len() ==> #[trigger] self@[i] + PAGE_SIZE <= u64::MAX,
                forall|a: int| #[trigger] allocator.is_free(a) <==> old(allocator).is_free(a)
                    || in_owned_page(self@.take(index as int), a),
            decreases self@.len() - index,
        {
            let page = self.pages[index];
            let ghost before = *allocator;
            allocator.free_contiguous_pages(page, 1);
            proof {
                assert forall|a: int| #[trigger] allocator.is_free(a) <==> old(allocator).is_free(a)
                    || in_owned_page(self@.take(index + 1), a) by {
                    let t = self@.take(index + 1);
                    if in_owned_page(self@.take(index as int), a) {
                        let i = choose|i: int| 0 <= i < index && #[trigger] self@.take(index as int)[i] <= a
                            < self@.take(index as int)[i] + PAGE_SIZE;
                        assert(t[i] == self@.take(index as int)[i]);
                    }
                    if page <= a < page + PAGE_SIZE {
                        assert(t[index as int] == page);
                    }
                    if in_owned_page(t, a) {
                        let i = choose|i: int| 0 <= i < index + 1 && #[trigger] t[i] <= a < t[i] + PAGE_SIZE;
                        if i < index {
                            assert(self@.take(index as int)[i] == t[i]);
                        }
                    }
                }
            }
            index += 1;
        }
        assert(self@.take(self@.len() as int) =~= self@);
    }
}

/// Reclaimable contiguous kernel buffer backed by physical pages.
pub struct KernelBuffer {
    pub(crate) start_paddr: u64,
    pub(crate) len: usize,
    pub(crate) page_count: usize,
}

impl KernelBuffer {
    pub closed spec fn spec_start(&self) -> u64 {
        self.start_paddr
    }

    pub closed spec fn spec_len(&self) -> usize {
        self.len
    }

    pub closed spec fn spec_page_count(&self) -> usize {
        self.page_count
    }

    /// A buffer of `len` bytes in `page_count` pages from `start_paddr`.
    pub(crate) fn new(start_paddr: u64, len: usize, page_count: usize) -> (r: Self)
        ensures
            r.spec_start() == start_paddr,
            r.spec_len() == len,
            r.spec_page_count() == page_count,
    {
        KernelBuffer { start_paddr, len, page_count }
    }

    pub fn len(&self) -> (r: usize)
        ensures
            r == self.spec_len(),
    {
        self.len
    }

    pub fn start_paddr(&self) -> (r: u64)
        ensures
            r == self.spec_start(),
    {
        self.start_paddr
    }

    pub fn page_count(&self) -> (r: usize)
        ensures
            r == self.spec_page_count(),
    {
        self.page_count
    }

    /// Returns the buffer's pages to the free memory of `state`.
    pub fn release(self, state: &mut MemoryState)
        requires
            old(state).wf(),
            buffer_releasable(*old(state), self),
        ensures
            final(state).wf(),
            same_layout(*final(state), *old(state)),
            final(state).memory == old(state).memory,
            kernel_view_kept(*final(state), *old(state)),
            forall|a: int| #[trigger] final(state).allocator.is_free(a) <==> old(state).allocator.is_free(a)
                || self.spec_start() <= a < self.spec_start() + self.spec_page_count() * PAGE_SIZE,
    {
        state.release_kernel_buffer(self);
    }

    /// The buffer's bytes as they stand in `memory`.
    pub fn as_slice<'a>(&self, memory: &'a PhysicalMemory) -> (r: &'a [u8])
        requires
            memory.covers(self.spec_start() as int, self.spec_start() + self.spec_len()),
        ensures
            r@ == memory.bytes_at(self.spec_start() as int, self.spec_len() as int),
    {
        memory.read_bytes(self.start_paddr, self.len)
    }

    /// The buffer's bytes in `memory`, borrowed for writing; nothing else in
    /// `memory` changes.
    pub fn as_mut_slice<'a>(&self, memory: &'a mut PhysicalMemory) -> (r: &'a mut [u8])
        requires
            old(memory).covers(self.spec_start() as int, self.spec_start() + self.spec_len()),
        ensures
            r@ == old(memory).bytes_at(self.spec_start() as int, self.spec_len() as int),
            final(r)@.len() == self.spec_len() ==> {
                &&& final(memory).wf() == old(memory).wf()
                &&& final(memory).bytes_at(self.spec_start() as int, self.spec_len() as int) == final(r)@
                &&& final(memory).same_outside(
                    &*old(memory),
                    self.spec_start() as int,
                    self.spec_start() + self.spec_len(),
                )
            },
    {
        memory.bytes_mut(self.start_paddr, self.len)
    }
}

/// Failures while decoding an ELF image or laying it out in memory.
#[derive(Clone, Copy, Debug, PartialEq, Eq, Structural)]
pub enum MemoryError {
    NoUsableMemory,
    AddressSpaceUninitialized,
    AllocatorExhausted,
    InvalidKernelBufferSize,
    SharedKernelMappingCapacityExceeded,
    Elf(ElfError),
    UserImageOutOfRange,
    InvalidStartupArguments,
    StartupArgumentsTooLarge,
    SegmentOverlapCapacityExceeded,
    OwnedPageCapacityExceeded,
}

/// The description that `MemoryError::as_str` reports for each error.
pub open spec fn memory_error_message(error: MemoryError) -> Seq<char> {
    match error {
        MemoryError::NoUsableMemory => "no usable physical memory is available"@,
        MemoryError::AddressSpaceUninitialized => "kernel address space is not initialized"@,
        MemoryError::AllocatorExhausted => "physical page allocator is exhausted"@,
        MemoryError::InvalidKernelBufferSize => "kernel buffer size is invalid"@,
        MemoryError::SharedKernelMappingCapacityExceeded => "shared kernel mapping capacity is exhausted"@,
        MemoryError::Elf(e) => elf_error_message(e),
        MemoryError::UserImageOutOfRange => "user image falls outside the fixed user layout"@,
        MemoryError::InvalidStartupArguments => "user startup arguments are invalid"@,
        MemoryError::StartupArgumentsTooLarge => "user startup arguments do not fit in the fixed stack"@,
        MemoryError::SegmentOverlapCapacityExceeded => "user image mapping capacity is exhausted"@,
        MemoryError::OwnedPageCapacityExceeded => "user image ownership tracking capacity is exhausted"@,
    }
}

impl MemoryError {
    /// Returns a short static description suitable for panic and boot output.
    pub fn as_str(self) -> (r: &'static str)
        ensures
            r@ == memory_error_message(self),
    {
        match self {
            MemoryError::NoUsableMemory => "no usable physical memory is available",
            MemoryError::AddressSpaceUninitialized => "kernel address space is not initialized",
            MemoryError::AllocatorExhausted => "physical page allocator is exhausted",
            MemoryError::InvalidKernelBufferSize => "kernel buffer size is invalid",
            MemoryError::SharedKernelMappingCapacityExceeded => {
                "shared kernel mapping capacity is exhausted"
            },
            MemoryError::Elf(error) => elf_error_as_str(error),
            MemoryError::UserImageOutOfRange => "user image falls outside the fixed user layout",
            MemoryError::InvalidStartupArguments => "user startup arguments are invalid",
            MemoryError::StartupArgumentsTooLarge => {
                "user startup arguments do not fit in the fixed stack"
            },
            MemoryError::SegmentOverlapCapacityExceeded => "user image mapping capacity is exhausted",
            MemoryError::OwnedPageCapacityExceeded => {
                "user image ownership tracking capacity is exhausted"
            },
        }
    }
}

} // verus!
