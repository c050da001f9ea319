//! Four-level x86-64 page tables built in physical memory.
use vstd::prelude::*;

use crate::memory::allocator::{is_first_fit, no_free_page, region_fits, PhysicalAllocator};
use crate::memory::phys::PhysicalMemory;
use crate::memory::types::{MemoryError, OwnedPages, MAX_OWNED_PAGES, LARGE_PAGE_SIZE, PAGE_HUGE, PAGE_PRESENT, PAGE_SIZE, PAGE_TABLE_FLAGS, PAGE_USER};
use crate::util::{align_down, align_up, spec_align_down, spec_align_up, spec_le_u64};

verus! {

/// Physical-address bits of a page-table entry.
pub const ADDRESS_MASK: u64 = 0x000f_ffff_ffff_f000;
/// Physical addresses a page-table entry can name lie below this bound.
pub const PHYS_ADDRESS_LIMIT: u64 = 0x0010_0000_0000_0000;
pub const TABLE_ENTRIES: usize = 512;
/// Identity mappings are meant for the lower half of the 48-bit virtual
/// address space, where each address has its own table slots.
pub const IDENTITY_LIMIT: u64 = 0x0000_8000_0000_0000;

pub open spec fn spec_pml4_index(address: u64) -> int {
    ((address >> 39u64) & 0x1ffu64) as int
}

pub open spec fn spec_pdpt_index(address: u64) -> int {
    ((address >> 30u64) & 0x1ffu64) as int
}

pub open spec fn spec_pd_index(address: u64) -> int {
    ((address >> 21u64) & 0x1ffu64) as int
}

pub open spec fn spec_pt_index(address: u64) -> int {
    ((address >> 12u64) & 0x1ffu64) as int
}

/// Index into the top-level table (address bits 39..47).
pub fn pml4_index(address: u64) -> (r: usize)
    ensures
        r == spec_pml4_index(address),
        r < TABLE_ENTRIES,
{
    let v = (address >> 39u64) & 0x1ffu64;
    proof {
        lemma_index_bounds(address);
    }
    v as usize
}

/// Index into the page-directory-pointer table (address bits 30..38).
pub fn pdpt_index(address: u64) -> (r: usize)
    ensures
        r == spec_pdpt_index(address),
        r < TABLE_ENTRIES,
{
    let v = (address >> 30u64) & 0x1ffu64;
    proof {
        lemma_index_bounds(address);
    }
    v as usize
}

/// Index into the page directory (address bits 21..29).
pub fn pd_index(address: u64) -> (r: usize)
    ensures
        r == spec_pd_index(address),
        r < TABLE_ENTRIES,
{
    let v = (address >> 21u64) & 0x1ffu64;
    proof {
        lemma_index_bounds(address);
    }
    v as usize
}

/// Index into the page table (address bits 12..20).
pub fn pt_index(address: u64) -> (r: usize)
    ensures
        r == spec_pt_index(address),
        r < TABLE_ENTRIES,
{
    let v = (address >> 12u64) & 0x1ffu64;
    proof {
        lemma_index_bounds(address);
    }
    v as usize
}

/// The 64-bit entry `index` of the table at `table`.
#[verifier::opaque]
pub open spec fn entry(mem: PhysicalMemory, table: int, index: int) -> u64 {
    spec_le_u64(mem.bytes_at(table + 8 * index, 8)) as u64
}

/// The table an entry points to, when the entry is present.
pub open spec fn next_table(mem: PhysicalMemory, table: int, index: int) -> Option<u64> {
    let e = entry(mem, table, index);
    if e & PAGE_PRESENT != 0 { Some(e & ADDRESS_MASK) } else { None }
}

/// The lower-level table that entry `index` of a level-`level` table leads to:
/// a present entry of a top-level (4) or page-directory-pointer (3) table, or a
/// present entry of a page directory (2) that does not map a 2 MiB page.
pub open spec fn child_table(mem: PhysicalMemory, table: int, index: int, level: int) -> Option<u64> {
    let e = entry(mem, table, index);
    if e & PAGE_PRESENT != 0 && (level >= 3 || (level == 2 && e & PAGE_HUGE == 0)) {
        Some(e & ADDRESS_MASK)
    } else {
        None
    }
}

pub open spec fn walk_pdpt(mem: PhysicalMemory, root: u64, virt: u64) -> Option<u64> {
    child_table(mem, root as int, spec_pml4_index(virt), 4)
}

pub open spec fn walk_pd(mem: PhysicalMemory, root: u64, virt: u64) -> Option<u64> {
    match walk_pdpt(mem, root, virt) {
        Some(t) => child_table(mem, t as int, spec_pdpt_index(virt), 3),
        None => None,
    }
}

pub open spec fn walk_pt(mem: PhysicalMemory, root: u64, virt: u64) -> Option<u64> {
    match walk_pd(mem, root, virt) {
        Some(t) => child_table(mem, t as int, spec_pd_index(virt), 2),
        None => None,
    }
}

/// The page-table entry that maps `virt` as a 4 KiB page, when the upper
/// levels lead to a page table.
pub open spec fn translate_4k(mem: PhysicalMemory, root: u64, virt: u64) -> Option<u64> {
    match walk_pt(mem, root, virt) {
        Some(t) => Some(entry(mem, t as int, spec_pt_index(virt))),
        None => None,
    }
}

/// The page-directory entry for `virt`, when the upper levels lead to a page
/// directory.
pub open spec fn translate_2m(mem: PhysicalMemory, root: u64, virt: u64) -> Option<u64> {
    match walk_pd(mem, root, virt) {
        Some(t) => Some(entry(mem, t as int, spec_pd_index(virt))),
        None => None,
    }
}

/// The page-directory entry on the path to `virt` maps a 2 MiB page.
pub open spec fn huge_on_path(mem: PhysicalMemory, root: u64, virt: u64) -> bool {
    match translate_2m(mem, root, virt) {
        Some(e) => e & PAGE_PRESENT != 0 && e & PAGE_HUGE != 0,
        None => false,
    }
}

/// The span of addresses one page-directory-pointer entry covers.
pub const DIRECTORY_SPAN: u64 = 0x4000_0000;

/// How many distinct `slot`-sized slots hold the pages from `first` up to,
/// not including, `limit`, `step` apart.
pub open spec fn slots_touched(first: int, limit: int, step: int, slot: int) -> int {
    if first < limit {
        (limit - step) / slot - first / slot + 1
    } else {
        0
    }
}

/// Addresses in the same 1 GiB slot reach the same page directory.
pub proof fn lemma_same_directory(mem: PhysicalMemory, root: u64, a: u64, b: u64)
    requires
        a as int / DIRECTORY_SPAN as int == b as int / DIRECTORY_SPAN as int,
    ensures
        walk_pd(mem, root, a) == walk_pd(mem, root, b),
{
    assert(((a >> 39u64) & 0x1ffu64) == ((b >> 39u64) & 0x1ffu64)
        && ((a >> 30u64) & 0x1ffu64) == ((b >> 30u64) & 0x1ffu64)) by (bit_vector)
        requires
            a / 0x4000_0000u64 == b / 0x4000_0000u64,
    ;
}

/// Addresses in the same 2 MiB slot reach the same page table.
pub proof fn lemma_same_page_table(mem: PhysicalMemory, root: u64, a: u64, b: u64)
    requires
        a as int / LARGE_PAGE_SIZE as int == b as int / LARGE_PAGE_SIZE as int,
    ensures
        walk_pt(mem, root, a) == walk_pt(mem, root, b),
{
    assert(((a >> 39u64) & 0x1ffu64) == ((b >> 39u64) & 0x1ffu64)
        && ((a >> 30u64) & 0x1ffu64) == ((b >> 30u64) & 0x1ffu64)
        && ((a >> 21u64) & 0x1ffu64) == ((b >> 21u64) & 0x1ffu64)) by (bit_vector)
        requires
            a / 0x20_0000u64 == b / 0x20_0000u64,
    ;
}

/// Two addresses select the same slot at every level of the tables.
pub open spec fn same_4k_slot(a: u64, b: u64) -> bool {
    &&& spec_pml4_index(a) == spec_pml4_index(b)
    &&& spec_pdpt_index(a) == spec_pdpt_index(b)
    &&& spec_pd_index(a) == spec_pd_index(b)
    &&& spec_pt_index(a) == spec_pt_index(b)
}

/// Two addresses select the same page-directory slot.
pub open spec fn same_2m_slot(a: u64, b: u64) -> bool {
    &&& spec_pml4_index(a) == spec_pml4_index(b)
    &&& spec_pdpt_index(a) == spec_pdpt_index(b)
    &&& spec_pd_index(a) == spec_pd_index(b)
}

/// A page-aligned table inside the memory window that the allocator does
/// not consider free.
pub open spec fn usable_table(mem: PhysicalMemory, alloc: PhysicalAllocator, t: u64) -> bool {
    &&& t as int % PAGE_SIZE as int == 0
    &&& mem.covers(t as int, t + PAGE_SIZE)
    &&& forall|a: int| t <= a < t + PAGE_SIZE ==> !#[trigger] alloc.is_free(a)
}

/// The page tables under `root`, each with its level (4 for the root down to
/// 1 for page tables): every one is usable, every entry that leads down leads
/// to a table one level lower, and no table is reached from two entries.
pub open spec fn tree_ok(mem: PhysicalMemory, alloc: PhysicalAllocator, root: u64, levels: Map<u64, int>) -> bool {
    &&& levels.dom().contains(root)
    &&& levels[root] == 4
    &&& forall|t: u64| #[trigger] levels.dom().contains(t) ==> 1 <= levels[t] <= 4 && usable_table(mem, alloc, t)
    &&& forall|t: u64, i: int|
        levels.dom().contains(t) && 0 <= i < TABLE_ENTRIES && (#[trigger] child_table(mem, t as int, i, levels[t])) is Some
        ==> levels.dom().contains(child_table(mem, t as int, i, levels[t]).unwrap())
            && levels[child_table(mem, t as int, i, levels[t]).unwrap()] == levels[t] - 1
    &&& forall|t1: u64, i1: int, t2: u64, i2: int|
        levels.dom().contains(t1) && levels.dom().contains(t2) && 0 <= i1 < TABLE_ENTRIES && 0 <= i2 < TABLE_ENTRIES
        && (#[trigger] child_table(mem, t1 as int, i1, levels[t1])) is Some
        && child_table(mem, t1 as int, i1, levels[t1]) == #[trigger] child_table(mem, t2 as int, i2, levels[t2])
        ==> t1 == t2 && i1 == i2
}

/// Address `a` lies in the page of one of the tables.
pub open spec fn in_tables(levels: Map<u64, int>, a: int) -> bool {
    exists|t: u64| #[trigger] levels.dom().contains(t) && t <= a < t + PAGE_SIZE
}

/// Only bytes in pages of the given tables differ.
pub open spec fn changed_within(new: PhysicalMemory, old: PhysicalMemory, levels: Map<u64, int>) -> bool {
    &&& new.spec_base() == old.spec_base()
    &&& new.spec_size() == old.spec_size()
    &&& forall|a: int| new.covers(a, a + 1) && !in_tables(levels, a) ==> #[trigger] new.byte(a) == old.byte(a)
}

/// Every table of `after` that `before` lacks was free memory in `alloc`.
pub open spec fn new_tables_were_free(before: Map<u64, int>, after: Map<u64, int>, alloc: PhysicalAllocator) -> bool {
    forall|t: u64, a: int| #[trigger] after.dom().contains(t) && !before.dom().contains(t) && t <= a < t + PAGE_SIZE
        ==> #[trigger] alloc.is_free(a)
}

/// Only bytes in pages of the given tables, or in memory that was free in
/// `alloc`, differ.
pub open spec fn touched_only(new: PhysicalMemory, old: PhysicalMemory, levels: Map<u64, int>, alloc: PhysicalAllocator) -> bool {
    &&& new.spec_base() == old.spec_base()
    &&& new.spec_size() == old.spec_size()
    &&& forall|a: int| new.covers(a, a + 1) && !in_tables(levels, a) && !alloc.is_free(a) ==> #[trigger] new.byte(a) == old.byte(a)
}

/// `new` is `old` followed by pages that were free in `before` and are taken
/// in `after`.
pub open spec fn owned_grew(new: Seq<u64>, old: Seq<u64>, before: PhysicalAllocator, after: PhysicalAllocator) -> bool {
    &&& old.len() <= new.len()
    &&& new.subrange(0, old.len() as int) == old
    &&& forall|i: int| old.len() <= i < new.len() ==> (#[trigger] new[i]) as int % PAGE_SIZE as int == 0
        && taken_page(new[i], before, after)
}

/// Address `a` lies in one of the pages that start at `pages`.
pub open spec fn in_page_list(pages: Seq<u64>, a: int) -> bool {
    exists|i: int| 0 <= i < pages.len() && #[trigger] pages[i] <= a < pages[i] + PAGE_SIZE
}

/// Every address taken between `before` and `after` lies in one of `pages`.
pub open spec fn taken_within(before: PhysicalAllocator, after: PhysicalAllocator, pages: Seq<u64>) -> bool {
    forall|a: int| #![trigger after.is_free(a)] before.is_free(a) && !after.is_free(a) ==> in_page_list(pages, a)
}

/// Takes accounted for over two steps, the list only growing, are accounted
/// for over both.
pub proof fn lemma_taken_within_trans(
    a0: PhysicalAllocator,
    a1: PhysicalAllocator,
    a2: PhysicalAllocator,
    o1: Seq<u64>,
    o2: Seq<u64>,
)
    requires
        taken_within(a0, a1, o1),
        taken_within(a1, a2, o2),
        o1.len() <= o2.len(),
        o2.subrange(0, o1.len() as int) == o1,
        forall|a: int| #[trigger] a2.is_free(a) ==> a1.is_free(a),
    ensures
        taken_within(a0, a2, o2),
{
    assert forall|a: int| #![trigger a2.is_free(a)] a0.is_free(a) && !a2.is_free(a) implies in_page_list(o2, a) by {
        if !a1.is_free(a) {
            assert(!a1.is_free(a));
            let i = choose|i: int| 0 <= i < o1.len() && #[trigger] o1[i] <= a < o1[i] + PAGE_SIZE;
            assert(o2.subrange(0, o1.len() as int)[i] == o2[i]);
        } else {
            assert(a1.is_free(a));
        }
    }
}

/// Nothing is taken between allocators with the same free memory.
pub proof fn lemma_taken_within_none(a0: PhysicalAllocator, a1: PhysicalAllocator, o: Seq<u64>)
    requires
        forall|a: int| #[trigger] a1.is_free(a) == a0.is_free(a),
    ensures
        taken_within(a0, a1, o),
{
}

/// The page at `p` was free in `before` and is taken in `after`.
pub open spec fn taken_page(p: u64, before: PhysicalAllocator, after: PhysicalAllocator) -> bool {
    forall|a: int| #![trigger after.is_free(a)] #![trigger before.is_free(a)]
        p <= a < p + PAGE_SIZE ==> before.is_free(a) && !after.is_free(a)
}

/// Every table of `before` is in `after`, at the same level.
pub open spec fn levels_grow(before: Map<u64, int>, after: Map<u64, int>) -> bool {
    forall|t: u64| #[trigger] before.dom().contains(t) ==> after.dom().contains(t) && after[t] == before[t]
}

/// The allocator and memory window a page-table builder works in.
pub open spec fn context_ok(mem: PhysicalMemory, alloc: PhysicalAllocator) -> bool {
    &&& mem.wf()
    &&& mem.spec_base() + mem.spec_size() <= IDENTITY_LIMIT
    &&& alloc.wf()
    &&& alloc.page_granular()
    &&& forall|a: int| #[trigger] alloc.is_free(a) ==> mem.covers(a, a + 1)
}

/// Bytes outside `[page, page + 4096)` and `[slot, slot + 8)` are unchanged.
pub open spec fn changed_only(new: PhysicalMemory, old: PhysicalMemory, page: int, slot: int) -> bool {
    &&& new.spec_base() == old.spec_base()
    &&& new.spec_size() == old.spec_size()
    &&& forall|a: int| new.covers(a, a + 1) && !(page <= a < page + PAGE_SIZE) && !(slot <= a < slot + 8)
        ==> #[trigger] new.byte(a) == old.byte(a)
}

/// An entry whose eight bytes lie outside the changed ranges keeps its value.
pub proof fn lemma_entry_kept(new: PhysicalMemory, old: PhysicalMemory, page: int, slot: int, table: int, index: int)
    requires
        changed_only(new, old, page, slot),
        old.covers(table + 8 * index, table + 8 * index + 8),
        table + 8 * index + 8 <= page || page + PAGE_SIZE <= table + 8 * index,
        table + 8 * index + 8 <= slot || slot + 8 <= table + 8 * index,
    ensures
        entry(new, table, index) == entry(old, table, index),
{
    reveal(entry);
    assert(new.bytes_at(table + 8 * index, 8) =~= old.bytes_at(table + 8 * index, 8)) by {
        assert forall|i: int| 0 <= i < 8 implies #[trigger] new.bytes_at(table + 8 * index, 8)[i]
            == old.bytes_at(table + 8 * index, 8)[i] by {
            assert(new.covers(table + 8 * index + i, table + 8 * index + i + 1));
        }
    }
}

/// Reads entry `index` of the table at `table`.
fn read_entry(mem: &PhysicalMemory, table: u64, index: usize) -> (r: u64)
    requires
        mem.wf(),
        mem.covers(table as int, table + PAGE_SIZE),
        index < TABLE_ENTRIES,
    ensures
        r == entry(*mem, table as int, index as int),
{
    reveal(entry);
    mem.read_u64(table + 8 * index as u64)
}

/// Writes entry `index` of the table at `table`.
fn write_entry(mem: &mut PhysicalMemory, table: u64, index: usize, value: u64)
    requires
        old(mem).wf(),
        old(mem).covers(table as int, table + PAGE_SIZE),
        index < TABLE_ENTRIES,
    ensures
        final(mem).wf(),
        entry(*final(mem), table as int, index as int) == value,
        final(mem).same_outside(&*old(mem), table + 8 * index, table + 8 * index + 8),
{
    reveal(entry);
    mem.write_u64(table + 8 * index as u64, value);
}

/// Takes one zeroed page from the allocator.
pub fn take_page(alloc: &mut PhysicalAllocator, mem: &mut PhysicalMemory) -> (r: Result<u64, MemoryError>)
    requires
        context_ok(*old(mem), *old(alloc)),
    ensures
        context_ok(*final(mem), *final(alloc)),
        match r {
            Ok(page) => {
                &&& page as int % PAGE_SIZE as int == 0
                &&& old(mem).covers(page as int, page + PAGE_SIZE)
                &&& forall|a: int| page <= a < page + PAGE_SIZE ==> #[trigger] old(alloc).is_free(a)
                    && !final(alloc).is_free(a) && final(mem).byte(a) == 0
                &&& forall|a: int| #[trigger] final(alloc).is_free(a) <==> old(alloc).is_free(a) && !(page <= a < page + PAGE_SIZE)
                &&& final(mem).same_outside(&*old(mem), page as int, page + PAGE_SIZE)
                &&& usable_table(*final(mem), *final(alloc), page)
            },
            Err(error) => {
                &&& error == MemoryError::AllocatorExhausted
                &&& *final(mem) == *old(mem)
                &&& final(alloc).spec_regions() == old(alloc).spec_regions()
                &&& forall|a: int| #[trigger] final(alloc).is_free(a) <==> old(alloc).is_free(a)
                &&& forall|i: int| 0 <= i < old(alloc).spec_regions().len()
                    ==> !region_fits(#[trigger] old(alloc).spec_regions()[i], PAGE_SIZE as int)
            },
        },
        r is Ok ==> exists|i: int| is_first_fit(old(alloc).spec_regions(), PAGE_SIZE as int, i)
            && old(alloc).spec_regions()[i].start == r->Ok_0,
{
    let ghost alloc0 = *alloc;
    match alloc.allocate_page(mem) {
        Ok(page) => {
            proof {
                let i = choose|i: int| is_first_fit(alloc0.spec_regions(), PAGE_SIZE as int, i)
                    && alloc0.spec_regions()[i].start == page;
                alloc0.lemma_region_starts_aligned(i);
                assert(alloc0.is_free(page as int));
                assert(alloc0.is_free(page + PAGE_SIZE - 1));
                lemma_free_page_granular(alloc0, *alloc, page);
            }
            Ok(page)
        },
        Err(error) => {
            proof {
                assert forall|a: int| #[trigger] alloc.is_free(a) <==> alloc0.is_free(a) by {}
            }
            Err(error)
        },
    }
}

/// When no byte of any table changes and free memory only shrinks, the tree
/// and every translation through it stay as they were.
pub proof fn lemma_tree_frame(
    mem0: PhysicalMemory,
    mem1: PhysicalMemory,
    alloc0: PhysicalAllocator,
    alloc1: PhysicalAllocator,
    root: u64,
    levels: Map<u64, int>,
)
    requires
        tree_ok(mem0, alloc0, root, levels),
        mem1.spec_base() == mem0.spec_base(),
        mem1.spec_size() == mem0.spec_size(),
        forall|a: int| in_tables(levels, a) ==> #[trigger] mem1.byte(a) == mem0.byte(a),
        forall|a: int| #[trigger] alloc1.is_free(a) ==> alloc0.is_free(a),
    ensures
        tree_ok(mem1, alloc1, root, levels),
        forall|t: u64, i: int| levels.dom().contains(t) && 0 <= i < TABLE_ENTRIES
            ==> #[trigger] entry(mem1, t as int, i) == entry(mem0, t as int, i),
        forall|v: u64| #[trigger] translate_4k(mem1, root, v) == translate_4k(mem0, root, v),
        forall|v: u64| #[trigger] translate_2m(mem1, root, v) == translate_2m(mem0, root, v),
        forall|v: u64| #[trigger] huge_on_path(mem1, root, v) == huge_on_path(mem0, root, v),
{
    assert forall|t: u64, i: int| levels.dom().contains(t) && 0 <= i < TABLE_ENTRIES
        implies #[trigger] entry(mem1, t as int, i) == entry(mem0, t as int, i) by {
        assert(usable_table(mem0, alloc0, t));
        reveal(entry);
        assert(mem1.bytes_at(t + 8 * i, 8) =~= mem0.bytes_at(t + 8 * i, 8)) by {
            assert forall|k: int| 0 <= k < 8 implies #[trigger] mem1.bytes_at(t + 8 * i, 8)[k]
                == mem0.bytes_at(t + 8 * i, 8)[k] by {
                assert(t <= t + 8 * i + k < t + PAGE_SIZE);
                assert(in_tables(levels, t + 8 * i + k));
            }
        }
    }
    assert forall|t2: u64, i2: int| levels.dom().contains(t2) && 0 <= i2 < TABLE_ENTRIES
        implies #[trigger] child_table(mem1, t2 as int, i2, levels[t2]) == child_table(mem0, t2 as int, i2, levels[t2]) by {
        assert(entry(mem1, t2 as int, i2) == entry(mem0, t2 as int, i2));
    }
    assert forall|t: u64| #[trigger] levels.dom().contains(t) implies usable_table(mem1, alloc1, t) by {
        assert(usable_table(mem0, alloc0, t));
    }
    assert forall|v: u64| #[trigger] translate_2m(mem1, root, v) == translate_2m(mem0, root, v) by {
        lemma_index_bounds(v);
        if walk_pdpt(mem0, root, v) is Some {
            let a = walk_pdpt(mem0, root, v).unwrap();
            assert(levels[a] == 3);
            if walk_pd(mem0, root, v) is Some {
                assert(levels[walk_pd(mem0, root, v).unwrap()] == 2);
            }
        }
    }
    assert forall|v: u64| #[trigger] translate_4k(mem1, root, v) == translate_4k(mem0, root, v) by {
        lemma_index_bounds(v);
        if walk_pdpt(mem0, root, v) is Some {
            let a = walk_pdpt(mem0, root, v).unwrap();
            assert(levels[a] == 3);
            if walk_pd(mem0, root, v) is Some {
                let b = walk_pd(mem0, root, v).unwrap();
                assert(levels[b] == 2);
                if walk_pt(mem0, root, v) is Some {
                    assert(levels[walk_pt(mem0, root, v).unwrap()] == 1);
                }
            }
        }
    }
    assert forall|v: u64| #[trigger] huge_on_path(mem1, root, v) == huge_on_path(mem0, root, v) by {
        assert(translate_2m(mem1, root, v) == translate_2m(mem0, root, v));
    }
}

/// Handing out free memory and writing only there leaves the tree and every
/// translation through it as they were.
pub proof fn lemma_tree_after_take(
    mem0: PhysicalMemory,
    mem1: PhysicalMemory,
    alloc0: PhysicalAllocator,
    alloc1: PhysicalAllocator,
    root: u64,
    levels: Map<u64, int>,
    lo: int,
    hi: int,
)
    requires
        tree_ok(mem0, alloc0, root, levels),
        mem1.same_outside(&mem0, lo, hi),
        forall|a: int| lo <= a < hi ==> #[trigger] alloc0.is_free(a),
        forall|a: int| #[trigger] alloc1.is_free(a) ==> alloc0.is_free(a),
    ensures
        tree_ok(mem1, alloc1, root, levels),
        forall|t: u64, i: int| levels.dom().contains(t) && 0 <= i < TABLE_ENTRIES
            ==> #[trigger] entry(mem1, t as int, i) == entry(mem0, t as int, i),
        forall|v: u64| #[trigger] translate_4k(mem1, root, v) == translate_4k(mem0, root, v),
        forall|v: u64| #[trigger] translate_2m(mem1, root, v) == translate_2m(mem0, root, v),
        forall|v: u64| #[trigger] huge_on_path(mem1, root, v) == huge_on_path(mem0, root, v),
{
    assert forall|a: int| in_tables(levels, a) implies #[trigger] mem1.byte(a) == mem0.byte(a) by {
        let t = choose|t: u64| #[trigger] levels.dom().contains(t) && t <= a < t + PAGE_SIZE;
        assert(usable_table(mem0, alloc0, t));
        assert(!alloc0.is_free(a));
        assert(mem0.covers(a, a + 1));
    }
    lemma_tree_frame(mem0, mem1, alloc0, alloc1, root, levels);
}

/// Builds page tables under one root, optionally recording every table page
/// it allocates as owned by the address space.
pub struct AddressSpaceBuilder {
    pub root_paddr: u64,
    pub track_owned: bool,
    /// The tables built so far under the root, with their levels.
    pub levels: Ghost<Map<u64, int>>,
}

impl AddressSpaceBuilder {
    /// A builder for the tables under `root_paddr`, a fresh top-level table.
    pub fn new(root_paddr: u64, track_owned: bool) -> (r: Self)
        ensures
            r.root_paddr == root_paddr,
            r.track_owned == track_owned,
            r.levels@ == Map::<u64, int>::empty().insert(root_paddr, 4int),
    {
        let levels: Ghost<Map<u64, int>> = Ghost(Map::empty().insert(root_paddr, 4int));
        AddressSpaceBuilder { root_paddr, track_owned, levels }
    }

    /// A builder that goes on with tables built earlier under `root_paddr`.
    pub fn resume(root_paddr: u64, track_owned: bool, levels: Ghost<Map<u64, int>>) -> (r: Self)
        ensures
            r.root_paddr == root_paddr,
            r.track_owned == track_owned,
            r.levels == levels,
    {
        AddressSpaceBuilder { root_paddr, track_owned, levels }
    }

    /// Makes entry `index` of `table` point to a lower-level table, creating
    /// a zeroed one when the entry is absent, and adds `extra` (the user bit
    /// or nothing) to the entry. Returns the lower table.
    pub fn ensure_table(
        &self,
        alloc: &mut PhysicalAllocator,
        mem: &mut PhysicalMemory,
        owned: &mut OwnedPages,
        table: u64,
        index: usize,
        extra_flags: u64,
    ) -> (r: Result<u64, MemoryError>)
        requires
            context_ok(*old(mem), *old(alloc)),
            old(owned).wf(),
            usable_table(*old(mem), *old(alloc), table),
            index < TABLE_ENTRIES,
            extra_flags == 0 || extra_flags == PAGE_USER,
        ensures
            context_ok(*final(mem), *final(alloc)),
            final(owned).wf(),
            owned_grew(final(owned)@, old(owned)@, *old(alloc), *final(alloc)),
            final(owned)@.len() <= old(owned)@.len() + 1,
            self.track_owned && (r is Ok || r == Err::<u64, MemoryError>(MemoryError::AllocatorExhausted))
                ==> taken_within(*old(alloc), *final(alloc), final(owned)@),
            r == Err::<u64, MemoryError>(MemoryError::AllocatorExhausted) ==> no_free_page(*final(alloc)),
            r == Err::<u64, MemoryError>(MemoryError::OwnedPageCapacityExceeded) ==> final(owned)@.len() == MAX_OWNED_PAGES,
            forall|a: int| #[trigger] final(alloc).is_free(a) ==> old(alloc).is_free(a),
            match r {
                Ok(child) => {
                    let e = entry(*final(mem), table as int, index as int);
                    &&& e & PAGE_PRESENT != 0
                    &&& e & ADDRESS_MASK == child
                    &&& e & extra_flags == extra_flags
                    &&& match next_table(*old(mem), table as int, index as int) {
                        Some(existing) => {
                            &&& child == existing
                            &&& e & PAGE_HUGE == entry(*old(mem), table as int, index as int) & PAGE_HUGE
                            &&& final(mem).same_outside(&*old(mem), table + 8 * index, table + 8 * index + 8)
                            &&& *final(alloc) == *old(alloc)
                            &&& final(owned)@ == old(owned)@
                        },
                        None => {
                            &&& e & PAGE_HUGE == 0
                            &&& child as int % PAGE_SIZE as int == 0
                            &&& old(mem).covers(child as int, child + PAGE_SIZE)
                            &&& forall|a: int| child <= a < child + PAGE_SIZE ==> #[trigger] old(alloc).is_free(a)
                                && !final(alloc).is_free(a) && final(mem).byte(a) == 0
                            &&& changed_only(*final(mem), *old(mem), child as int, table + 8 * index)
                            &&& forall|a: int| #[trigger] final(alloc).is_free(a) <==> old(alloc).is_free(a) && !(child <= a < child + PAGE_SIZE)
                            &&& final(owned)@ == if self.track_owned { old(owned)@.push(child) } else { old(owned)@ }
                        },
                    }
                },
                Err(error) => {
                    &&& next_table(*old(mem), table as int, index as int) is None
                    &&& error == MemoryError::AllocatorExhausted ==> *final(mem) == *old(mem)
                    &&& final(mem).spec_base() == old(mem).spec_base()
                    &&& final(mem).spec_size() == old(mem).spec_size()
                    &&& forall|a: int| final(mem).covers(a, a + 1) && !old(alloc).is_free(a)
                        ==> #[trigger] final(mem).byte(a) == old(mem).byte(a)
                    &&& error == MemoryError::AllocatorExhausted
                        || (self.track_owned && old(owned)@.len() == MAX_OWNED_PAGES && error == MemoryError::OwnedPageCapacityExceeded)
                },
            },
    {
        let current = read_entry(mem, table, index);
        if current & PAGE_PRESENT != 0 {
            if current & extra_flags != extra_flags {
                write_entry(mem, table, index, current | extra_flags);
            }
            let child = current & ADDRESS_MASK;
            let e = if current & extra_flags != extra_flags { current | extra_flags } else { current };
            assert(e & PAGE_PRESENT != 0 && e & ADDRESS_MASK == current & ADDRESS_MASK && e & extra_flags == extra_flags
                && e & PAGE_HUGE == current & PAGE_HUGE) by (bit_vector)
                requires
                    current & PAGE_PRESENT != 0,
                    e == if current & extra_flags != extra_flags { current | extra_flags } else { current },
                    extra_flags == 0 || extra_flags == 4,
                    PAGE_PRESENT == 1,
                    PAGE_HUGE == 0x80,
                    ADDRESS_MASK == 0x000f_ffff_ffff_f000,
            ;
            assert(owned@.subrange(0, owned@.len() as int) =~= owned@);
            return Ok(child);
        }
        let ghost mem0 = *mem;
        let ghost alloc0 = *alloc;
        let child = match alloc.allocate_page(mem) {
            Ok(child) => child,
            Err(error) => {
                proof {
                    assert forall|a: int| #[trigger] alloc.is_free(a) <==> alloc0.is_free(a) by {}
                    assert(owned@.subrange(0, owned@.len() as int) =~= owned@);
                }
                return Err(error);
            },
        };
        proof {
            let i = choose|i: int| is_first_fit(alloc0.spec_regions(), PAGE_SIZE as int, i)
                && alloc0.spec_regions()[i].start == child;
            alloc0.lemma_region_starts_aligned(i);
            assert(alloc0.is_free(child as int));
            assert(alloc0.is_free(child + PAGE_SIZE - 1));
            lemma_free_page_granular(alloc0, *alloc, child);
        }
        if self.track_owned {
            match owned.push(child) {
                Ok(()) => {},
                Err(error) => {
                    proof {
                        assert(owned@.subrange(0, owned@.len() as int) =~= owned@);
                    }
                    return Err(error);
                },
            }
        }
        let ghost mem1 = *mem;
        assert(child & 0xfffu64 == 0) by (bit_vector)
            requires
                child % 4096 == 0,
        ;
        let value = child | PAGE_TABLE_FLAGS | extra_flags;
        write_entry(mem, table, index, value);
        assert(value & PAGE_PRESENT != 0 && value & ADDRESS_MASK == child && value & extra_flags == extra_flags
            && value & PAGE_HUGE == 0) by (bit_vector)
            requires
                PAGE_HUGE == 0x80,
                value == child | PAGE_TABLE_FLAGS | extra_flags,
                child & 0xfffu64 == 0,
                child < 0x0010_0000_0000_0000,
                extra_flags == 0 || extra_flags == 4,
                PAGE_PRESENT == 1,
                PAGE_TABLE_FLAGS == 3,
                ADDRESS_MASK == 0x000f_ffff_ffff_f000,
        ;
        proof {
            assert forall|a: int| child <= a < child + PAGE_SIZE implies #[trigger] alloc0.is_free(a)
                && !alloc.is_free(a) && mem.byte(a) == 0 by {
                assert(!(table <= a < table + PAGE_SIZE));
            }
            assert(owned@.subrange(0, old(owned)@.len() as int) =~= old(owned)@);
            assert(taken_page(child, alloc0, *alloc));
            if self.track_owned {
                assert forall|a: int| #![trigger alloc.is_free(a)] alloc0.is_free(a) && !alloc.is_free(a)
                    implies in_page_list(owned@, a) by {
                    assert(owned@[owned@.len() - 1] == child);
                    assert(child <= a < child + PAGE_SIZE);
                }
            }
        }
        Ok(child)
    }

    /// `ensure_table` on a table of the tree: the tree grows by the new
    /// table, or stays as it is when the entry already leads somewhere.
    fn ensure_level(
        &mut self,
        alloc: &mut PhysicalAllocator,
        mem: &mut PhysicalMemory,
        owned: &mut OwnedPages,
        table: u64,
        index: usize,
        level: Ghost<int>,
        extra_flags: u64,
    ) -> (r: Result<u64, MemoryError>)
        requires
            context_ok(*old(mem), *old(alloc)),
            old(owned).wf(),
            tree_ok(*old(mem), *old(alloc), old(self).root_paddr, old(self).levels@),
            old(self).levels@.dom().contains(table),
            old(self).levels@[table] == level@,
            level@ >= 2,
            index < TABLE_ENTRIES,
            extra_flags == 0 || extra_flags == PAGE_USER,
            level@ == 2 ==> !(entry(*old(mem), table as int, index as int) & PAGE_PRESENT != 0
                && entry(*old(mem), table as int, index as int) & PAGE_HUGE != 0),
        ensures
            final(self).root_paddr == old(self).root_paddr,
            final(self).track_owned == old(self).track_owned,
            context_ok(*final(mem), *final(alloc)),
            final(owned).wf(),
            owned_grew(final(owned)@, old(owned)@, *old(alloc), *final(alloc)),
            final(owned)@.len() <= old(owned)@.len() + 1,
            child_table(*old(mem), table as int, index as int, level@) is Some ==> final(owned)@ == old(owned)@,
            old(self).track_owned && (r is Ok || r == Err::<u64, MemoryError>(MemoryError::AllocatorExhausted))
                ==> taken_within(*old(alloc), *final(alloc), final(owned)@),
            r == Err::<u64, MemoryError>(MemoryError::AllocatorExhausted) ==> no_free_page(*final(alloc)),
            r == Err::<u64, MemoryError>(MemoryError::OwnedPageCapacityExceeded) ==> final(owned)@.len() == MAX_OWNED_PAGES,
            forall|a: int| #[trigger] final(alloc).is_free(a) ==> old(alloc).is_free(a),
            levels_grow(old(self).levels@, final(self).levels@),
            new_tables_were_free(old(self).levels@, final(self).levels@, *old(alloc)),
            r is Ok || !old(self).track_owned ==> changed_within(*final(mem), *old(mem), final(self).levels@),
            r is Ok || !old(self).track_owned ==> tree_ok(*final(mem), *final(alloc), final(self).root_paddr, final(self).levels@),
            r is Ok ==> forall|t2: u64, i2: int| old(self).levels@.dom().contains(t2) && 0 <= i2 < TABLE_ENTRIES
                && !(t2 == table && i2 == index) ==> #[trigger] entry(*final(mem), t2 as int, i2) == entry(*old(mem), t2 as int, i2),
            r is Ok ==> forall|t2: u64, i2: int| old(self).levels@.dom().contains(t2) && 0 <= i2 < TABLE_ENTRIES
                && (#[trigger] child_table(*old(mem), t2 as int, i2, old(self).levels@[t2])) is Some
                ==> child_table(*final(mem), t2 as int, i2, old(self).levels@[t2]) == child_table(*old(mem), t2 as int, i2, old(self).levels@[t2]),
            r is Ok && level@ == 2 ==> entry(*final(mem), table as int, index as int) & PAGE_HUGE == 0,
            touched_only(*final(mem), *old(mem), final(self).levels@, *old(alloc)),
            r is Ok || !old(self).track_owned ==> forall|v: u64| #[trigger] huge_on_path(*final(mem), final(self).root_paddr, v)
                ==> huge_on_path(*old(mem), old(self).root_paddr, v)
                    && translate_2m(*final(mem), final(self).root_paddr, v) == translate_2m(*old(mem), old(self).root_paddr, v),
            match r {
                Ok(child) => {
                    &&& child_table(*final(mem), table as int, index as int, level@) == Some(child)
                    &&& final(self).levels@.dom().contains(child)
                    &&& final(self).levels@[child] == level@ - 1
                    &&& entry(*final(mem), table as int, index as int) & extra_flags == extra_flags
                    &&& match child_table(*old(mem), table as int, index as int, level@) {
                        Some(existing) => child == existing && final(self).levels@ == old(self).levels@,
                        None => {
                            &&& !old(self).levels@.dom().contains(child)
                            &&& forall|i2: int| 0 <= i2 < TABLE_ENTRIES ==> #[trigger] entry(*final(mem), child as int, i2) == 0
                        },
                    }
                },
                Err(error) => {
                    &&& final(self).levels@ == old(self).levels@
                    &&& error == MemoryError::AllocatorExhausted
                        || (old(self).track_owned && error == MemoryError::OwnedPageCapacityExceeded)
                },
            },
    {
        let ghost mem0 = *mem;
        let ghost alloc0 = *alloc;
        let ghost levels0 = self.levels@;
        let result = self.ensure_level_core(alloc, mem, owned, table, index, level, extra_flags);
        proof {
            let root = self.root_paddr;
            if result is Ok {
                lemma_touched_from_changed(*mem, mem0, self.levels@, alloc0);
                let levels1 = self.levels@;
                assert forall|t: u64, i: int| levels1.dom().contains(t) && !levels0.dom().contains(t) && 0 <= i < TABLE_ENTRIES
                    implies #[trigger] entry(*mem, t as int, i) == 0 by {
                    assert(t == result->Ok_0);
                }
                assert forall|v: u64| #[trigger] huge_on_path(*mem, root, v)
                    implies huge_on_path(mem0, root, v) && translate_2m(*mem, root, v) == translate_2m(mem0, root, v) by {
                    lemma_huge_step(mem0, *mem, levels0, levels1, root, table, index as int, level@, v);
                }
            } else {
                if !self.track_owned {
                    assert(*mem == mem0);
                } else {
                    assert forall|a: int| mem.covers(a, a + 1) && !in_tables(self.levels@, a) && !alloc0.is_free(a)
                        implies #[trigger] mem.byte(a) == mem0.byte(a) by {}
                }
            }
        }
        result
    }

    fn ensure_level_core(
        &mut self,
        alloc: &mut PhysicalAllocator,
        mem: &mut PhysicalMemory,
        owned: &mut OwnedPages,
        table: u64,
        index: usize,
        level: Ghost<int>,
        extra_flags: u64,
    ) -> (r: Result<u64, MemoryError>)
        requires
            context_ok(*old(mem), *old(alloc)),
            old(owned).wf(),
            tree_ok(*old(mem), *old(alloc), old(self).root_paddr, old(self).levels@),
            old(self).levels@.dom().contains(table),
            old(self).levels@[table] == level@,
            level@ >= 2,
            index < TABLE_ENTRIES,
            extra_flags == 0 || extra_flags == PAGE_USER,
            level@ == 2 ==> !(entry(*old(mem), table as int, index as int) & PAGE_PRESENT != 0
                && entry(*old(mem), table as int, index as int) & PAGE_HUGE != 0),
        ensures
            final(self).root_paddr == old(self).root_paddr,
            final(self).track_owned == old(self).track_owned,
            context_ok(*final(mem), *final(alloc)),
            final(owned).wf(),
            owned_grew(final(owned)@, old(owned)@, *old(alloc), *final(alloc)),
            final(owned)@.len() <= old(owned)@.len() + 1,
            child_table(*old(mem), table as int, index as int, level@) is Some ==> final(owned)@ == old(owned)@,
            old(self).track_owned && (r is Ok || r == Err::<u64, MemoryError>(MemoryError::AllocatorExhausted))
                ==> taken_within(*old(alloc), *final(alloc), final(owned)@),
            r == Err::<u64, MemoryError>(MemoryError::AllocatorExhausted) ==> no_free_page(*final(alloc)),
            r == Err::<u64, MemoryError>(MemoryError::OwnedPageCapacityExceeded) ==> final(owned)@.len() == MAX_OWNED_PAGES,
            forall|a: int| #[trigger] final(alloc).is_free(a) ==> old(alloc).is_free(a),
            levels_grow(old(self).levels@, final(self).levels@),
            new_tables_were_free(old(self).levels@, final(self).levels@, *old(alloc)),
            r is Ok || !old(self).track_owned ==> changed_within(*final(mem), *old(mem), final(self).levels@),
            r is Ok || !old(self).track_owned ==> tree_ok(*final(mem), *final(alloc), final(self).root_paddr, final(self).levels@),
            r is Ok ==> forall|t2: u64, i2: int| old(self).levels@.dom().contains(t2) && 0 <= i2 < TABLE_ENTRIES
                && !(t2 == table && i2 == index) ==> #[trigger] entry(*final(mem), t2 as int, i2) == entry(*old(mem), t2 as int, i2),
            r is Ok ==> forall|t2: u64, i2: int| old(self).levels@.dom().contains(t2) && 0 <= i2 < TABLE_ENTRIES
                && (#[trigger] child_table(*old(mem), t2 as int, i2, old(self).levels@[t2])) is Some
                ==> child_table(*final(mem), t2 as int, i2, old(self).levels@[t2]) == child_table(*old(mem), t2 as int, i2, old(self).levels@[t2]),
            r is Ok && level@ == 2 ==> entry(*final(mem), table as int, index as int) & PAGE_HUGE == 0,
            r is Ok ==> final(self).levels@ == old(self).levels@
                || final(self).levels@ == old(self).levels@.insert(r->Ok_0, level@ - 1),
            match r {
                Ok(child) => {
                    &&& child_table(*final(mem), table as int, index as int, level@) == Some(child)
                    &&& final(self).levels@.dom().contains(child)
                    &&& final(self).levels@[child] == level@ - 1
                    &&& entry(*final(mem), table as int, index as int) & extra_flags == extra_flags
                    &&& match child_table(*old(mem), table as int, index as int, level@) {
                        Some(existing) => child == existing && final(self).levels@ == old(self).levels@,
                        None => {
                            &&& !old(self).levels@.dom().contains(child)
                            &&& forall|i2: int| 0 <= i2 < TABLE_ENTRIES ==> #[trigger] entry(*final(mem), child as int, i2) == 0
                        },
                    }
                },
                Err(error) => {
                    &&& final(self).levels@ == old(self).levels@
                    &&& error == MemoryError::AllocatorExhausted ==> *final(mem) == *old(mem)
                    &&& final(mem).spec_base() == old(mem).spec_base()
                    &&& final(mem).spec_size() == old(mem).spec_size()
                    &&& forall|a: int| final(mem).covers(a, a + 1) && !old(alloc).is_free(a)
                        ==> #[trigger] final(mem).byte(a) == old(mem).byte(a)
                    &&& error == MemoryError::AllocatorExhausted
                        || (old(self).track_owned && error == MemoryError::OwnedPageCapacityExceeded)
                },
            },
    {
        let ghost mem0 = *mem;
        let ghost alloc0 = *alloc;
        let ghost levels0 = self.levels@;
        let result = self.ensure_table(alloc, mem, owned, table, index, extra_flags);
        proof {
            let e0 = entry(mem0, table as int, index as int);
            assert(e0 & PAGE_PRESENT != 0 ==> (e0 & PAGE_PRESENT != 0 && (level@ >= 3 || (level@ == 2 && e0 & PAGE_HUGE == 0))));
        }
        match result {
            Ok(child) => {
                proof {
                    if next_table(mem0, table as int, index as int) is Some {
                        lemma_tree_slot_kept(mem0, *mem, alloc0, *alloc, self.root_paddr, levels0, table, index as int);
                        assert forall|a: int| mem.covers(a, a + 1) && !in_tables(levels0, a)
                            implies #[trigger] mem.byte(a) == mem0.byte(a) by {
                            if table + 8 * index <= a < table + 8 * index + 8 {
                                assert(levels0.dom().contains(table));
                            }
                        }
                    } else {
                        lemma_tree_grown(mem0, *mem, alloc0, *alloc, self.root_paddr, levels0, table, index as int, child);
                        let grown = levels0.insert(child, level@ - 1);
                        assert forall|a: int| mem.covers(a, a + 1) && !in_tables(grown, a)
                            implies #[trigger] mem.byte(a) == mem0.byte(a) by {
                            if table + 8 * index <= a < table + 8 * index + 8 {
                                assert(grown.dom().contains(table));
                            }
                            if child <= a < child + PAGE_SIZE {
                                assert(grown.dom().contains(child));
                            }
                        }
                        assert forall|t: u64, a: int| #[trigger] grown.dom().contains(t) && !levels0.dom().contains(t)
                            && t <= a < t + PAGE_SIZE implies #[trigger] alloc0.is_free(a) by {
                            assert(t == child);
                        }
                    }
                }
                self.levels = Ghost(
                    if next_table(mem0, table as int, index as int) is Some { levels0 } else { levels0.insert(child, level@ - 1) },
                );
                Ok(child)
            },
            Err(error) => {
                proof {
                    if !self.track_owned {
                        assert forall|t: u64| #[trigger] levels0.dom().contains(t) implies usable_table(*mem, *alloc, t) by {
                            assert(usable_table(mem0, alloc0, t));
                        }
                    }
                }
                Err(error)
            },
        }
    }

    /// Maps the 4 KiB page at `virt` to the frame `phys` with `flags`,
    /// creating the intermediate tables that are missing and adding the user
    /// bit of `flags` to the entries on the way.
    pub fn map_4k(
        &mut self,
        alloc: &mut PhysicalAllocator,
        mem: &mut PhysicalMemory,
        owned: &mut OwnedPages,
        virt: u64,
        phys: u64,
        flags: u64,
    ) -> (r: Result<(), MemoryError>)
        requires
            context_ok(*old(mem), *old(alloc)),
            old(owned).wf(),
            tree_ok(*old(mem), *old(alloc), old(self).root_paddr, old(self).levels@),
            !huge_on_path(*old(mem), old(self).root_paddr, virt),
        ensures
            final(self).root_paddr == old(self).root_paddr,
            final(self).track_owned == old(self).track_owned,
            context_ok(*final(mem), *final(alloc)),
            final(owned).wf(),
            owned_grew(final(owned)@, old(owned)@, *old(alloc), *final(alloc)),
            old(self).track_owned && (r is Ok || r == Err::<(), MemoryError>(MemoryError::AllocatorExhausted))
                ==> taken_within(*old(alloc), *final(alloc), final(owned)@),
            r == Err::<(), MemoryError>(MemoryError::AllocatorExhausted) ==> no_free_page(*final(alloc)),
            r == Err::<(), MemoryError>(MemoryError::OwnedPageCapacityExceeded) ==> final(owned)@.len() == MAX_OWNED_PAGES,
            forall|a: int| #[trigger] final(alloc).is_free(a) ==> old(alloc).is_free(a),
            levels_grow(old(self).levels@, final(self).levels@),
            new_tables_were_free(old(self).levels@, final(self).levels@, *old(alloc)),
            r is Ok || !old(self).track_owned ==> changed_within(*final(mem), *old(mem), final(self).levels@),
            r is Ok || !old(self).track_owned ==> tree_ok(*final(mem), *final(alloc), final(self).root_paddr, final(self).levels@),
            final(owned)@.len() <= old(owned)@.len() + 3,
            walk_pt(*old(mem), old(self).root_paddr, virt) is Some ==> final(owned)@ == old(owned)@,
            r is Ok ==> translate_4k(*final(mem), final(self).root_paddr, virt) == Some(phys | flags),
            r is Ok ==> forall|v: u64| !same_4k_slot(v, virt) && (#[trigger] translate_4k(*old(mem), old(self).root_paddr, v)) is Some
                ==> translate_4k(*final(mem), final(self).root_paddr, v) == translate_4k(*old(mem), old(self).root_paddr, v),
            touched_only(*final(mem), *old(mem), final(self).levels@, *old(alloc)),
            r is Ok || !old(self).track_owned ==> forall|v: u64| #[trigger] huge_on_path(*final(mem), final(self).root_paddr, v)
                ==> huge_on_path(*old(mem), old(self).root_paddr, v)
                    && translate_2m(*final(mem), final(self).root_paddr, v) == translate_2m(*old(mem), old(self).root_paddr, v),
            r is Ok ==> forall|v: u64| #[trigger] huge_on_path(*old(mem), old(self).root_paddr, v)
                ==> translate_2m(*final(mem), final(self).root_paddr, v) == translate_2m(*old(mem), old(self).root_paddr, v),
            r is Err ==> r->Err_0 == MemoryError::AllocatorExhausted
                || (old(self).track_owned && r->Err_0 == MemoryError::OwnedPageCapacityExceeded),
    {
        let ghost mem0 = *mem;
        let ghost levels0 = self.levels@;
        let root = self.root_paddr;
        let extra = flags & PAGE_USER;
        assert(extra == 0 || extra == PAGE_USER) by (bit_vector)
            requires
                extra == flags & 4u64,
                PAGE_USER == 4,
        ;
        let i4 = pml4_index(virt);
        let i3 = pdpt_index(virt);
        let i2 = pd_index(virt);
        let i1 = pt_index(virt);
        let ghost alloc0 = *alloc;
        let ghost owned0 = owned@;
        let pdpt = match self.ensure_level(alloc, mem, owned, root, i4, Ghost(4int), extra) {
            Ok(t) => t,
            Err(error) => return Err(error),
        };
        let ghost mem1 = *mem;
        let ghost alloc1 = *alloc;
        let ghost owned1 = owned@;
        let ghost levels1 = self.levels@;
        let pd = match self.ensure_level(alloc, mem, owned, pdpt, i3, Ghost(3int), extra) {
            Ok(t) => t,
            Err(error) => {
                proof {
                    lemma_owned_grew_trans(owned0, owned1, owned@, alloc0, alloc1, *alloc);
                    lemma_new_free_trans(levels0, levels1, self.levels@, alloc0, alloc1);
                    lemma_touched_trans(mem0, mem1, *mem, levels1, self.levels@, alloc0, alloc1);
                    if !self.track_owned {
                        lemma_changed_within_trans(mem0, mem1, *mem, levels1, self.levels@);
                        assert forall|v: u64| #[trigger] huge_on_path(*mem, root, v)
                            implies huge_on_path(mem0, root, v) && translate_2m(*mem, root, v) == translate_2m(mem0, root, v) by {
                            assert(huge_on_path(mem1, root, v));
                        }
                    }
                }
                return Err(error);
            },
        };
        let ghost mem2 = *mem;
        let ghost alloc2 = *alloc;
        let ghost owned2 = owned@;
        let ghost levels2 = self.levels@;
        proof {
            lemma_owned_grew_trans(owned0, owned1, owned2, alloc0, alloc1, alloc2);
            lemma_new_free_trans(levels0, levels1, levels2, alloc0, alloc1);
            lemma_changed_within_trans(mem0, mem1, mem2, levels1, levels2);
        }
        proof {
            if child_table(mem1, pdpt as int, i3 as int, 3) is Some {
                if child_table(mem0, root as int, i4 as int, 4) is None {
                    assert(entry(mem1, pdpt as int, i3 as int) == 0);
                    lemma_zero_absent();
                }
                assert(entry(mem1, pdpt as int, i3 as int) == entry(mem0, pdpt as int, i3 as int));
                assert(walk_pd(mem0, root, virt) == Some(pd));
                assert(entry(mem1, pd as int, i2 as int) == entry(mem0, pd as int, i2 as int));
            } else {
                assert(entry(mem2, pd as int, i2 as int) == 0);
                lemma_zero_absent();
            }
        }
        let pt = match self.ensure_level(alloc, mem, owned, pd, i2, Ghost(2int), extra) {
            Ok(t) => t,
            Err(error) => {
                proof {
                    lemma_owned_grew_trans(owned0, owned2, owned@, alloc0, alloc2, *alloc);
                    lemma_new_free_trans(levels0, levels2, self.levels@, alloc0, alloc2);
                    lemma_touched_from_changed(mem2, mem0, levels2, alloc0);
                    lemma_touched_trans(mem0, mem2, *mem, levels2, self.levels@, alloc0, alloc2);
                    if !self.track_owned {
                        lemma_changed_within_trans(mem0, mem2, *mem, levels2, self.levels@);
                        assert forall|v: u64| #[trigger] huge_on_path(*mem, root, v)
                            implies huge_on_path(mem0, root, v) && translate_2m(*mem, root, v) == translate_2m(mem0, root, v) by {
                            assert(huge_on_path(mem2, root, v));
                            assert(huge_on_path(mem1, root, v));
                        }
                    }
                }
                return Err(error);
            },
        };
        let ghost mem3 = *mem;
        let ghost alloc3 = *alloc;
        let ghost levels3 = self.levels@;
        proof {
            assert(usable_table(mem3, alloc3, pt));
        }
        write_entry(mem, pt, i1, phys | flags);
        proof {
            lemma_owned_grew_trans(owned0, owned2, owned@, alloc0, alloc2, *alloc);
            lemma_new_free_trans(levels0, levels2, levels3, alloc0, alloc2);
            lemma_changed_within_trans(mem0, mem2, mem3, levels2, levels3);
            lemma_write_within(*mem, mem3, levels3, pt, pt + 8 * i1, pt + 8 * i1 + 8);
            lemma_changed_within_trans(mem0, mem3, *mem, levels3, levels3);
            lemma_touched_from_changed(*mem, mem0, levels3, alloc0);
            lemma_tree_slot_kept(mem3, *mem, alloc3, *alloc, root, levels3, pt, i1 as int);
            assert(entry(*mem, root as int, i4 as int) == entry(mem1, root as int, i4 as int));
            assert(entry(*mem, pdpt as int, i3 as int) == entry(mem2, pdpt as int, i3 as int));
            assert(entry(*mem, pd as int, i2 as int) == entry(mem3, pd as int, i2 as int));
            let ghost mem4 = *mem;
            assert(entry(mem3, root as int, i4 as int) == entry(mem1, root as int, i4 as int));
            assert(entry(mem3, pdpt as int, i3 as int) == entry(mem2, pdpt as int, i3 as int));
            assert forall|v: u64| !same_4k_slot(v, virt) && (#[trigger] translate_4k(mem0, root, v)) is Some
                implies translate_4k(mem4, root, v) == translate_4k(mem0, root, v) by {
                lemma_walk_kept(mem0, mem1, mem2, mem3, mem4, root, levels0, levels1, levels2, levels3, v,
                    pdpt, pd, pt, virt);
            }
            assert(entry(mem4, pd as int, i2 as int) & PAGE_HUGE == 0);
            assert forall|v: u64| #[trigger] huge_on_path(mem4, root, v)
                implies huge_on_path(mem0, root, v) && translate_2m(mem4, root, v) == translate_2m(mem0, root, v) by {
                lemma_huge_after(mem0, mem1, mem2, mem4, levels0, levels1, levels2, root, pdpt, pd, virt, v);
            }
            assert forall|v: u64| #[trigger] huge_on_path(mem0, root, v)
                implies translate_2m(mem4, root, v) == translate_2m(mem0, root, v) by {
                if same_2m_slot(v, virt) {
                    assert(translate_2m(mem0, root, v) == translate_2m(mem0, root, virt));
                }
                lemma_huge_kept_2m(mem0, mem1, mem2, mem3, levels0, levels1, levels2, root, pdpt, pd, virt, v);
                lemma_index_bounds(v);
                let v4 = spec_pml4_index(v);
                let v3 = spec_pdpt_index(v);
                let y = child_table(mem3, root as int, v4, 4).unwrap();
                assert(entry(mem4, root as int, v4) == entry(mem3, root as int, v4));
                assert(levels3[y] == 3);
                assert(entry(mem4, y as int, v3) == entry(mem3, y as int, v3));
                let x = child_table(mem3, y as int, v3, 3).unwrap();
                assert(levels3[x] == 2);
                assert(entry(mem4, x as int, spec_pd_index(v)) == entry(mem3, x as int, spec_pd_index(v)));
            }
        }
        Ok(())
    }

    /// Maps the 2 MiB page at `virt` to the frame `phys` with `flags` through
    /// a page-directory entry, creating the upper tables that are missing.
    pub fn map_2m(
        &mut self,
        alloc: &mut PhysicalAllocator,
        mem: &mut PhysicalMemory,
        owned: &mut OwnedPages,
        virt: u64,
        phys: u64,
        flags: u64,
    ) -> (r: Result<(), MemoryError>)
        requires
            context_ok(*old(mem), *old(alloc)),
            old(owned).wf(),
            tree_ok(*old(mem), *old(alloc), old(self).root_paddr, old(self).levels@),
        ensures
            final(self).root_paddr == old(self).root_paddr,
            final(self).track_owned == old(self).track_owned,
            context_ok(*final(mem), *final(alloc)),
            final(owned).wf(),
            owned_grew(final(owned)@, old(owned)@, *old(alloc), *final(alloc)),
            old(self).track_owned && (r is Ok || r == Err::<(), MemoryError>(MemoryError::AllocatorExhausted))
                ==> taken_within(*old(alloc), *final(alloc), final(owned)@),
            r == Err::<(), MemoryError>(MemoryError::AllocatorExhausted) ==> no_free_page(*final(alloc)),
            r == Err::<(), MemoryError>(MemoryError::OwnedPageCapacityExceeded) ==> final(owned)@.len() == MAX_OWNED_PAGES,
            forall|a: int| #[trigger] final(alloc).is_free(a) ==> old(alloc).is_free(a),
            levels_grow(old(self).levels@, final(self).levels@),
            new_tables_were_free(old(self).levels@, final(self).levels@, *old(alloc)),
            r is Ok || !old(self).track_owned ==> changed_within(*final(mem), *old(mem), final(self).levels@),
            r is Ok || !old(self).track_owned ==> tree_ok(*final(mem), *final(alloc), final(self).root_paddr, final(self).levels@),
            touched_only(*final(mem), *old(mem), final(self).levels@, *old(alloc)),
            final(owned)@.len() <= old(owned)@.len() + 2,
            walk_pd(*old(mem), old(self).root_paddr, virt) is Some ==> final(owned)@ == old(owned)@,
            r is Ok ==> translate_2m(*final(mem), final(self).root_paddr, virt) == Some(phys | flags | PAGE_HUGE),
            r is Ok ==> forall|v: u64| !same_2m_slot(v, virt) && #[trigger] huge_on_path(*old(mem), old(self).root_paddr, v)
                ==> translate_2m(*final(mem), final(self).root_paddr, v) == translate_2m(*old(mem), old(self).root_paddr, v),
            r is Ok ==> forall|v: u64| #[trigger] huge_on_path(*final(mem), final(self).root_paddr, v)
                ==> same_2m_slot(v, virt) || huge_on_path(*old(mem), old(self).root_paddr, v),
            r is Err ==> r->Err_0 == MemoryError::AllocatorExhausted
                || (old(self).track_owned && r->Err_0 == MemoryError::OwnedPageCapacityExceeded),
    {
        let ghost mem0 = *mem;
        let ghost levels0 = self.levels@;
        let root = self.root_paddr;
        let extra = flags & PAGE_USER;
        assert(extra == 0 || extra == PAGE_USER) by (bit_vector)
            requires
                extra == flags & 4u64,
                PAGE_USER == 4,
        ;
        let i4 = pml4_index(virt);
        let i3 = pdpt_index(virt);
        let i2 = pd_index(virt);
        let ghost alloc0 = *alloc;
        let ghost owned0 = owned@;
        let pdpt = match self.ensure_level(alloc, mem, owned, root, i4, Ghost(4int), extra) {
            Ok(t) => t,
            Err(error) => return Err(error),
        };
        let ghost mem1 = *mem;
        let ghost alloc1 = *alloc;
        let ghost owned1 = owned@;
        let ghost levels1 = self.levels@;
        let pd = match self.ensure_level(alloc, mem, owned, pdpt, i3, Ghost(3int), extra) {
            Ok(t) => t,
            Err(error) => {
                proof {
                    lemma_owned_grew_trans(owned0, owned1, owned@, alloc0, alloc1, *alloc);
                    lemma_new_free_trans(levels0, levels1, self.levels@, alloc0, alloc1);
                    lemma_touched_trans(mem0, mem1, *mem, levels1, self.levels@, alloc0, alloc1);
                    if !self.track_owned {
                        lemma_changed_within_trans(mem0, mem1, *mem, levels1, self.levels@);
                    }
                }
                return Err(error);
            },
        };
        let ghost mem2 = *mem;
        let ghost alloc2 = *alloc;
        let ghost levels2 = self.levels@;
        proof {
            assert(usable_table(mem2, alloc2, pd));
        }
        let value = phys | flags | PAGE_HUGE;
        write_entry(mem, pd, i2, value);
        proof {
            lemma_owned_grew_trans(owned0, owned1, owned@, alloc0, alloc1, *alloc);
            let mem3 = *mem;
            lemma_new_free_trans(levels0, levels1, levels2, alloc0, alloc1);
            lemma_changed_within_trans(mem0, mem1, mem2, levels1, levels2);
            lemma_write_within(mem3, mem2, levels2, pd, pd + 8 * i2, pd + 8 * i2 + 8);
            lemma_changed_within_trans(mem0, mem2, mem3, levels2, levels2);
            lemma_touched_from_changed(mem3, mem0, levels2, alloc0);
            assert(value & PAGE_HUGE != 0) by (bit_vector)
                requires
                    value == phys | flags | 0x80u64,
                    PAGE_HUGE == 0x80,
            ;
            lemma_tree_slot_kept(mem2, mem3, alloc2, *alloc, root, levels2, pd, i2 as int);
            assert(entry(mem2, root as int, i4 as int) == entry(mem1, root as int, i4 as int));
            assert(entry(mem3, root as int, i4 as int) == entry(mem2, root as int, i4 as int));
            assert(entry(mem3, pdpt as int, i3 as int) == entry(mem2, pdpt as int, i3 as int));
            assert(walk_pd(mem3, root, virt) == Some(pd));
            assert forall|v: u64| #[trigger] huge_on_path(mem3, root, v)
                implies same_2m_slot(v, virt) || huge_on_path(mem0, root, v) by {
                lemma_huge_after(mem0, mem1, mem2, mem3, levels0, levels1, levels2, root, pdpt, pd, virt, v);
            }
            assert forall|v: u64| !same_2m_slot(v, virt) && #[trigger] huge_on_path(mem0, root, v)
                implies translate_2m(mem3, root, v) == translate_2m(mem0, root, v) by {
                lemma_huge_kept_2m(mem0, mem1, mem2, mem3, levels0, levels1, levels2, root, pdpt, pd, virt, v);
            }
        }
        Ok(())
    }

    /// Identity-maps `[start, end)` with 2 MiB pages, widened outward to 2 MiB
    /// boundaries.
    pub fn map_identity_2m_range(
        &mut self,
        alloc: &mut PhysicalAllocator,
        mem: &mut PhysicalMemory,
        owned: &mut OwnedPages,
        start: u64,
        end: u64,
        flags: u64,
    ) -> (r: Result<(), MemoryError>)
        requires
            context_ok(*old(mem), *old(alloc)),
            old(owned).wf(),
            tree_ok(*old(mem), *old(alloc), old(self).root_paddr, old(self).levels@),
            end + LARGE_PAGE_SIZE - 1 <= u64::MAX,
        ensures
            final(self).root_paddr == old(self).root_paddr,
            final(self).track_owned == old(self).track_owned,
            context_ok(*final(mem), *final(alloc)),
            final(owned).wf(),
            owned_grew(final(owned)@, old(owned)@, *old(alloc), *final(alloc)),
            old(self).track_owned && (r is Ok || r == Err::<(), MemoryError>(MemoryError::AllocatorExhausted))
                ==> taken_within(*old(alloc), *final(alloc), final(owned)@),
            r == Err::<(), MemoryError>(MemoryError::AllocatorExhausted) ==> no_free_page(*final(alloc)),
            r == Err::<(), MemoryError>(MemoryError::OwnedPageCapacityExceeded) ==> final(owned)@.len() == MAX_OWNED_PAGES,
            final(owned)@.len() <= old(owned)@.len() + 2 * slots_touched(spec_align_down(start, LARGE_PAGE_SIZE) as int,
                spec_align_up(end, LARGE_PAGE_SIZE) as int, LARGE_PAGE_SIZE as int, DIRECTORY_SPAN as int),
            forall|a: int| #[trigger] final(alloc).is_free(a) ==> old(alloc).is_free(a),
            levels_grow(old(self).levels@, final(self).levels@),
            new_tables_were_free(old(self).levels@, final(self).levels@, *old(alloc)),
            touched_only(*final(mem), *old(mem), final(self).levels@, *old(alloc)),
            r is Ok || !old(self).track_owned ==> changed_within(*final(mem), *old(mem), final(self).levels@),
            r is Ok || !old(self).track_owned ==> tree_ok(*final(mem), *final(alloc), final(self).root_paddr, final(self).levels@),
            r is Ok && flags & PAGE_PRESENT != 0 && spec_align_up(end, LARGE_PAGE_SIZE) <= IDENTITY_LIMIT
                ==> forall|a: u64| spec_align_down(start, LARGE_PAGE_SIZE) <= a < spec_align_up(end, LARGE_PAGE_SIZE)
                    ==> #[trigger] translate_2m(*final(mem), final(self).root_paddr, a)
                        == Some(((a - a % LARGE_PAGE_SIZE) as u64) | flags | PAGE_HUGE),
            r is Ok && spec_align_up(end, LARGE_PAGE_SIZE) <= IDENTITY_LIMIT ==> forall|v: u64|
                #[trigger] huge_on_path(*final(mem), final(self).root_paddr, v) && v < IDENTITY_LIMIT
                ==> huge_on_path(*old(mem), old(self).root_paddr, v)
                    || (spec_align_down(start, LARGE_PAGE_SIZE) <= v < spec_align_up(end, LARGE_PAGE_SIZE)),
            r is Err ==> r->Err_0 == MemoryError::AllocatorExhausted
                || (old(self).track_owned && r->Err_0 == MemoryError::OwnedPageCapacityExceeded),
    {
        let first = align_down(start, LARGE_PAGE_SIZE);
        let limit = align_up(end, LARGE_PAGE_SIZE);
        let mut address = first;
        proof {
            lemma_owned_grew_refl(owned@, *alloc, *alloc);
            lemma_taken_within_none(*alloc, *alloc, owned@);
        }
        proof {
            assert(first as int % LARGE_PAGE_SIZE as int == 0);
        }
        while address < limit
            invariant
                first == spec_align_down(start, LARGE_PAGE_SIZE),
                limit == spec_align_up(end, LARGE_PAGE_SIZE),
                first <= address,
                address as int % LARGE_PAGE_SIZE as int == 0,
                limit as int % LARGE_PAGE_SIZE as int == 0,
                address <= limit || address == first,
                self.root_paddr == old(self).root_paddr,
                self.track_owned == old(self).track_owned,
                context_ok(*mem, *alloc),
                owned.wf(),
                forall|a: int| #[trigger] alloc.is_free(a) ==> old(alloc).is_free(a),
                levels_grow(old(self).levels@, self.levels@),
                new_tables_were_free(old(self).levels@, self.levels@, *old(alloc)),
                owned_grew(owned@, old(owned)@, *old(alloc), *alloc),
                self.track_owned ==> taken_within(*old(alloc), *alloc, owned@),
                touched_only(*mem, *old(mem), self.levels@, *old(alloc)),
                changed_within(*mem, *old(mem), self.levels@),
                tree_ok(*mem, *alloc, self.root_paddr, self.levels@),
                flags & PAGE_PRESENT != 0 && limit <= IDENTITY_LIMIT ==> forall|a: u64| first <= a < address
                    ==> #[trigger] translate_2m(*mem, self.root_paddr, a)
                        == Some(((a - a % LARGE_PAGE_SIZE) as u64) | flags | PAGE_HUGE),
                limit <= IDENTITY_LIMIT ==> forall|v: u64| #[trigger] huge_on_path(*mem, self.root_paddr, v) && v < IDENTITY_LIMIT
                    ==> huge_on_path(*old(mem), self.root_paddr, v) || (first <= v < address),
                owned@.len() <= old(owned)@.len() + 2 * slots_touched(first as int, address as int, LARGE_PAGE_SIZE as int,
                    DIRECTORY_SPAN as int),
                first < address ==> walk_pd(*mem, self.root_paddr, (address - LARGE_PAGE_SIZE) as u64) is Some,
            decreases limit - address,
        {
            let ghost mem_before = *mem;
            let ghost alloc_before = *alloc;
            let ghost levels_before = self.levels@;
            let ghost owned_before = owned@;
            proof {
                if first < address {
                    let prev = (address - LARGE_PAGE_SIZE) as u64;
                    if prev as int / DIRECTORY_SPAN as int == address as int / DIRECTORY_SPAN as int {
                        lemma_same_directory(*mem, self.root_paddr, prev, address);
                    }
                }
            }
            match self.map_2m(alloc, mem, owned, address, address, flags) {
                Ok(()) => {},
                Err(error) => {
                    proof {
                        lemma_new_free_trans(old(self).levels@, levels_before, self.levels@, *old(alloc), alloc_before);
                        lemma_owned_grew_trans(old(owned)@, owned_before, owned@, *old(alloc), alloc_before, *alloc);
                        if self.track_owned && error == MemoryError::AllocatorExhausted {
                            lemma_taken_within_trans(*old(alloc), alloc_before, *alloc, owned_before, owned@);
                        }
                        lemma_touched_trans(*old(mem), mem_before, *mem, levels_before, self.levels@, *old(alloc), alloc_before);
                        if !self.track_owned {
                            lemma_changed_within_trans(*old(mem), mem_before, *mem, levels_before, self.levels@);
                        }
                    }
                    return Err(error);
                },
            }
            proof {
                lemma_new_free_trans(old(self).levels@, levels_before, self.levels@, *old(alloc), alloc_before);
                lemma_owned_grew_trans(old(owned)@, owned_before, owned@, *old(alloc), alloc_before, *alloc);
                if self.track_owned {
                    lemma_taken_within_trans(*old(alloc), alloc_before, *alloc, owned_before, owned@);
                }
                lemma_changed_within_trans(*old(mem), mem_before, *mem, levels_before, self.levels@);
                lemma_touched_trans(*old(mem), mem_before, *mem, levels_before, self.levels@, *old(alloc), alloc_before);
                lemma_2m_range_step(*old(mem), mem_before, *mem, self.root_paddr, first, address, limit, flags);
            }
            address = address + LARGE_PAGE_SIZE;
        }
        Ok(())
    }

    /// Identity-maps `[start, end)` with 4 KiB pages, widened outward to page
    /// boundaries.
    pub fn map_identity_4k_range(
        &mut self,
        alloc: &mut PhysicalAllocator,
        mem: &mut PhysicalMemory,
        owned: &mut OwnedPages,
        start: u64,
        end: u64,
        flags: u64,
    ) -> (r: Result<(), MemoryError>)
        requires
            context_ok(*old(mem), *old(alloc)),
            old(owned).wf(),
            tree_ok(*old(mem), *old(alloc), old(self).root_paddr, old(self).levels@),
            end + PAGE_SIZE - 1 <= u64::MAX,
            forall|v: u64| spec_align_down(start, PAGE_SIZE as u64) <= v < spec_align_up(end, PAGE_SIZE as u64)
                ==> !#[trigger] huge_on_path(*old(mem), old(self).root_paddr, v),
        ensures
            final(self).root_paddr == old(self).root_paddr,
            final(self).track_owned == old(self).track_owned,
            context_ok(*final(mem), *final(alloc)),
            final(owned).wf(),
            owned_grew(final(owned)@, old(owned)@, *old(alloc), *final(alloc)),
            old(self).track_owned && (r is Ok || r == Err::<(), MemoryError>(MemoryError::AllocatorExhausted))
                ==> taken_within(*old(alloc), *final(alloc), final(owned)@),
            r == Err::<(), MemoryError>(MemoryError::AllocatorExhausted) ==> no_free_page(*final(alloc)),
            r == Err::<(), MemoryError>(MemoryError::OwnedPageCapacityExceeded) ==> final(owned)@.len() == MAX_OWNED_PAGES,
            final(owned)@.len() <= old(owned)@.len() + 3 * slots_touched(spec_align_down(start, PAGE_SIZE as u64) as int,
                spec_align_up(end, PAGE_SIZE as u64) as int, PAGE_SIZE as int, LARGE_PAGE_SIZE as int),
            forall|a: int| #[trigger] final(alloc).is_free(a) ==> old(alloc).is_free(a),
            levels_grow(old(self).levels@, final(self).levels@),
            new_tables_were_free(old(self).levels@, final(self).levels@, *old(alloc)),
            touched_only(*final(mem), *old(mem), final(self).levels@, *old(alloc)),
            r is Ok || !old(self).track_owned ==> changed_within(*final(mem), *old(mem), final(self).levels@),
            r is Ok || !old(self).track_owned ==> tree_ok(*final(mem), *final(alloc), final(self).root_paddr, final(self).levels@),
            r is Ok && spec_align_up(end, PAGE_SIZE as u64) <= IDENTITY_LIMIT
                ==> forall|a: u64| spec_align_down(start, PAGE_SIZE as u64) <= a < spec_align_up(end, PAGE_SIZE as u64)
                    ==> #[trigger] translate_4k(*final(mem), final(self).root_paddr, a)
                        == Some(((a - a % (PAGE_SIZE as u64)) as u64) | flags),
            r is Ok && spec_align_up(end, PAGE_SIZE as u64) <= IDENTITY_LIMIT ==> forall|v: u64|
                !(spec_align_down(start, PAGE_SIZE as u64) <= v < spec_align_up(end, PAGE_SIZE as u64))
                && v < IDENTITY_LIMIT && (#[trigger] translate_4k(*old(mem), old(self).root_paddr, v)) is Some
                ==> translate_4k(*final(mem), final(self).root_paddr, v) == translate_4k(*old(mem), old(self).root_paddr, v),
            r is Ok || !old(self).track_owned ==> forall|v: u64| #[trigger] huge_on_path(*final(mem), final(self).root_paddr, v)
                ==> huge_on_path(*old(mem), old(self).root_paddr, v)
                    && translate_2m(*final(mem), final(self).root_paddr, v) == translate_2m(*old(mem), old(self).root_paddr, v),
            r is Ok ==> forall|v: u64| #[trigger] huge_on_path(*old(mem), old(self).root_paddr, v)
                ==> translate_2m(*final(mem), final(self).root_paddr, v) == translate_2m(*old(mem), old(self).root_paddr, v),
            r is Err ==> r->Err_0 == MemoryError::AllocatorExhausted
                || (old(self).track_owned && r->Err_0 == MemoryError::OwnedPageCapacityExceeded),
    {
        let first = align_down(start, PAGE_SIZE as u64);
        let limit = align_up(end, PAGE_SIZE as u64);
        let mut address = first;
        proof {
            lemma_owned_grew_refl(owned@, *alloc, *alloc);
            lemma_taken_within_none(*alloc, *alloc, owned@);
        }
        while address < limit
            invariant
                first == spec_align_down(start, PAGE_SIZE as u64),
                limit == spec_align_up(end, PAGE_SIZE as u64),
                first <= address,
                address as int % PAGE_SIZE as int == 0,
                limit as int % PAGE_SIZE as int == 0,
                address <= limit || address == first,
                self.root_paddr == old(self).root_paddr,
                self.track_owned == old(self).track_owned,
                context_ok(*mem, *alloc),
                owned.wf(),
                forall|a: int| #[trigger] alloc.is_free(a) ==> old(alloc).is_free(a),
                levels_grow(old(self).levels@, self.levels@),
                new_tables_were_free(old(self).levels@, self.levels@, *old(alloc)),
                owned_grew(owned@, old(owned)@, *old(alloc), *alloc),
                self.track_owned ==> taken_within(*old(alloc), *alloc, owned@),
                touched_only(*mem, *old(mem), self.levels@, *old(alloc)),
                changed_within(*mem, *old(mem), self.levels@),
                tree_ok(*mem, *alloc, self.root_paddr, self.levels@),
                forall|v: u64| first <= v < limit ==> !#[trigger] huge_on_path(*old(mem), self.root_paddr, v),
                limit <= IDENTITY_LIMIT ==> forall|a: u64| first <= a < address
                    ==> #[trigger] translate_4k(*mem, self.root_paddr, a) == Some(((a - a % (PAGE_SIZE as u64)) as u64) | flags),
                limit <= IDENTITY_LIMIT ==> forall|v: u64| !(first <= v < limit) && v < IDENTITY_LIMIT
                    && (#[trigger] translate_4k(*old(mem), self.root_paddr, v)) is Some
                    ==> translate_4k(*mem, self.root_paddr, v) == translate_4k(*old(mem), self.root_paddr, v),
                forall|v: u64| #[trigger] huge_on_path(*mem, self.root_paddr, v)
                    ==> huge_on_path(*old(mem), self.root_paddr, v)
                        && translate_2m(*mem, self.root_paddr, v) == translate_2m(*old(mem), self.root_paddr, v),
                forall|v: u64| #[trigger] huge_on_path(*old(mem), self.root_paddr, v)
                    ==> translate_2m(*mem, self.root_paddr, v) == translate_2m(*old(mem), self.root_paddr, v),
                owned@.len() <= old(owned)@.len() + 3 * slots_touched(first as int, address as int, PAGE_SIZE as int,
                    LARGE_PAGE_SIZE as int),
                first < address ==> walk_pt(*mem, self.root_paddr, (address - PAGE_SIZE) as u64) is Some,
            decreases limit - address,
        {
            let ghost mem_before = *mem;
            let ghost alloc_before = *alloc;
            let ghost levels_before = self.levels@;
            let ghost owned_before = owned@;
            proof {
                if huge_on_path(mem_before, self.root_paddr, address) {
                    assert(huge_on_path(*old(mem), self.root_paddr, address));
                }
                if first < address {
                    let prev = (address - PAGE_SIZE) as u64;
                    if prev as int / LARGE_PAGE_SIZE as int == address as int / LARGE_PAGE_SIZE as int {
                        lemma_same_page_table(*mem, self.root_paddr, prev, address);
                    }
                }
            }
            match self.map_4k(alloc, mem, owned, address, address, flags) {
                Ok(()) => {},
                Err(error) => {
                    proof {
                        lemma_new_free_trans(old(self).levels@, levels_before, self.levels@, *old(alloc), alloc_before);
                        lemma_owned_grew_trans(old(owned)@, owned_before, owned@, *old(alloc), alloc_before, *alloc);
                        if self.track_owned && error == MemoryError::AllocatorExhausted {
                            lemma_taken_within_trans(*old(alloc), alloc_before, *alloc, owned_before, owned@);
                        }
                        lemma_touched_trans(*old(mem), mem_before, *mem, levels_before, self.levels@, *old(alloc), alloc_before);
                        if !self.track_owned {
                            lemma_changed_within_trans(*old(mem), mem_before, *mem, levels_before, self.levels@);
                        }
                    }
                    return Err(error);
                },
            }
            proof {
                lemma_new_free_trans(old(self).levels@, levels_before, self.levels@, *old(alloc), alloc_before);
                lemma_owned_grew_trans(old(owned)@, owned_before, owned@, *old(alloc), alloc_before, *alloc);
                if self.track_owned {
                    lemma_taken_within_trans(*old(alloc), alloc_before, *alloc, owned_before, owned@);
                }
                lemma_changed_within_trans(*old(mem), mem_before, *mem, levels_before, self.levels@);
                lemma_touched_trans(*old(mem), mem_before, *mem, levels_before, self.levels@, *old(alloc), alloc_before);
                lemma_4k_range_step(*old(mem), mem_before, *mem, self.root_paddr, first, address, limit, flags);
                assert forall|v: u64| #[trigger] huge_on_path(*old(mem), self.root_paddr, v)
                    implies translate_2m(*mem, self.root_paddr, v) == translate_2m(*old(mem), self.root_paddr, v) by {
                    assert(translate_2m(mem_before, self.root_paddr, v) == translate_2m(*old(mem), self.root_paddr, v));
                    assert(huge_on_path(mem_before, self.root_paddr, v));
                }
            }
            address = address + PAGE_SIZE as u64;
        }
        Ok(())
    }
}

/// Taking an aligned page out of page-granular free memory leaves it
/// page-granular.
pub proof fn lemma_free_page_granular(before: PhysicalAllocator, after: PhysicalAllocator, page: u64)
    requires
        before.page_granular(),
        page as int % PAGE_SIZE as int == 0,
        forall|a: int| #[trigger] after.is_free(a) <==> before.is_free(a) && !(page <= a < page + PAGE_SIZE),
    ensures
        after.page_granular(),
{
    assert forall|a: int, b: int| #[trigger] after.is_free(a) && a - a % PAGE_SIZE as int <= b < a - a % PAGE_SIZE as int + PAGE_SIZE
        implies #[trigger] after.is_free(b) by {
        assert(before.is_free(b));
        if page <= b < page + PAGE_SIZE {
            assert(a - a % PAGE_SIZE as int == page) by (nonlinear_arith)
                requires
                    page % 4096 == 0,
                    page <= b < page + 4096,
                    a - a % 4096 <= b < a - a % 4096 + 4096,
            ;
        }
    }
}

/// Two distinct page-aligned addresses are a whole page apart.
proof fn lemma_aligned_apart(a: int, b: int)
    by (nonlinear_arith)
    requires
        a % 4096 == 0,
        b % 4096 == 0,
        a != b,
    ensures
        a + 4096 <= b || b + 4096 <= a,
{
}

/// Distinct entry slots of page-aligned tables do not overlap.
proof fn lemma_slots_apart(t1: u64, i1: int, t2: u64, i2: int)
    requires
        t1 as int % PAGE_SIZE as int == 0,
        t2 as int % PAGE_SIZE as int == 0,
        0 <= i1 < TABLE_ENTRIES,
        0 <= i2 < TABLE_ENTRIES,
        !(t1 == t2 && i1 == i2),
    ensures
        t1 + 8 * i1 + 8 <= t2 + 8 * i2 || t2 + 8 * i2 + 8 <= t1 + 8 * i1,
{
    if t1 != t2 {
        lemma_aligned_apart(t1 as int, t2 as int);
    }
}

/// A page the allocator keeps and a page it considers free do not overlap.
pub proof fn lemma_kept_and_free_apart(alloc: PhysicalAllocator, t: u64, c: u64)
    requires
        forall|a: int| t <= a < t + PAGE_SIZE ==> !#[trigger] alloc.is_free(a),
        forall|a: int| c <= a < c + PAGE_SIZE ==> #[trigger] alloc.is_free(a),
    ensures
        t + PAGE_SIZE <= c || c + PAGE_SIZE <= t,
{
    if !(t + PAGE_SIZE <= c || c + PAGE_SIZE <= t) {
        if t <= c {
            assert(alloc.is_free(c as int));
        } else {
            assert(alloc.is_free(t as int));
        }
    }
}

/// An entry whose bytes lie outside `[lo, hi)` keeps its value.
proof fn lemma_entry_outside(new: PhysicalMemory, old: PhysicalMemory, lo: int, hi: int, table: int, index: int)
    requires
        new.same_outside(&old, lo, hi),
        old.covers(table + 8 * index, table + 8 * index + 8),
        table + 8 * index + 8 <= lo || hi <= table + 8 * index,
    ensures
        entry(new, table, index) == entry(old, table, index),
{
    reveal(entry);
    assert(new.bytes_at(table + 8 * index, 8) =~= old.bytes_at(table + 8 * index, 8)) by {
        assert forall|i: int| 0 <= i < 8 implies #[trigger] new.bytes_at(table + 8 * index, 8)[i]
            == old.bytes_at(table + 8 * index, 8)[i] by {
            assert(new.covers(table + 8 * index + i, table + 8 * index + i + 1));
        }
    }
}

/// An entry made of zero bytes is zero and leads nowhere.
proof fn lemma_zero_entry(mem: PhysicalMemory, table: int, index: int)
    requires
        forall|a: int| table + 8 * index <= a < table + 8 * index + 8 ==> #[trigger] mem.byte(a) == 0,
    ensures
        entry(mem, table, index) == 0,
        forall|level: int| #[trigger] child_table(mem, table, index, level) is None,
{
    reveal(entry);
    let s = mem.bytes_at(table + 8 * index, 8);
    assert(s[0] == 0 && s[1] == 0 && s[2] == 0 && s[3] == 0);
    assert(s[4] == 0 && s[5] == 0 && s[6] == 0 && s[7] == 0);
    let h = s.subrange(4, 8);
    assert(h[0] == 0 && h[1] == 0 && h[2] == 0 && h[3] == 0);
    lemma_zero_absent();
}

/// A fresh, zeroed top-level table forms a tree by itself.
pub proof fn lemma_fresh_root(mem: PhysicalMemory, alloc: PhysicalAllocator, root: u64)
    requires
        usable_table(mem, alloc, root),
        forall|a: int| root <= a < root + PAGE_SIZE ==> #[trigger] mem.byte(a) == 0,
    ensures
        tree_ok(mem, alloc, root, Map::<u64, int>::empty().insert(root, 4int)),
        forall|v: u64| #[trigger] walk_pdpt(mem, root, v) is None,
        forall|v: u64| !#[trigger] huge_on_path(mem, root, v),
        forall|v: u64| #[trigger] translate_4k(mem, root, v) is None,
{
    let levels = Map::<u64, int>::empty().insert(root, 4int);
    assert forall|v: u64| #[trigger] walk_pdpt(mem, root, v) is None by {
        lemma_index_bounds(v);
        lemma_zero_entry(mem, root as int, spec_pml4_index(v));
    }
    assert forall|v: u64| !#[trigger] huge_on_path(mem, root, v) by {
        assert(walk_pdpt(mem, root, v) is None);
    }
    assert forall|v: u64| #[trigger] translate_4k(mem, root, v) is None by {
        assert(walk_pdpt(mem, root, v) is None);
    }
    assert forall|t: u64, i: int| levels.dom().contains(t) && 0 <= i < TABLE_ENTRIES
        implies #[trigger] child_table(mem, t as int, i, levels[t]) is None by {
        lemma_zero_entry(mem, t as int, i);
    }
}

/// Changing one slot of a table in the tree, without changing where it
/// leads, and handing out only free memory keeps the tree.
proof fn lemma_tree_slot_kept(
    mem0: PhysicalMemory,
    mem1: PhysicalMemory,
    alloc0: PhysicalAllocator,
    alloc1: PhysicalAllocator,
    root: u64,
    levels: Map<u64, int>,
    t: u64,
    idx: int,
)
    requires
        tree_ok(mem0, alloc0, root, levels),
        levels.dom().contains(t),
        0 <= idx < TABLE_ENTRIES,
        mem1.same_outside(&mem0, t + 8 * idx, t + 8 * idx + 8),
        forall|a: int| #[trigger] alloc1.is_free(a) ==> alloc0.is_free(a),
        child_table(mem1, t as int, idx, levels[t]) == child_table(mem0, t as int, idx, levels[t])
            || child_table(mem1, t as int, idx, levels[t]) is None,
    ensures
        tree_ok(mem1, alloc1, root, levels),
        forall|t2: u64, i2: int| levels.dom().contains(t2) && 0 <= i2 < TABLE_ENTRIES && !(t2 == t && i2 == idx)
            ==> #[trigger] entry(mem1, t2 as int, i2) == entry(mem0, t2 as int, i2),
{
    assert forall|t2: u64, i2: int| levels.dom().contains(t2) && 0 <= i2 < TABLE_ENTRIES && !(t2 == t && i2 == idx)
        implies #[trigger] entry(mem1, t2 as int, i2) == entry(mem0, t2 as int, i2) by {
        lemma_slots_apart(t, idx, t2, i2);
        lemma_entry_outside(mem1, mem0, t + 8 * idx, t + 8 * idx + 8, t2 as int, i2);
    }
    assert forall|t2: u64, i2: int| levels.dom().contains(t2) && 0 <= i2 < TABLE_ENTRIES
        && (#[trigger] child_table(mem1, t2 as int, i2, levels[t2])) is Some
        implies child_table(mem1, t2 as int, i2, levels[t2]) == child_table(mem0, t2 as int, i2, levels[t2]) by {
        if !(t2 == t && i2 == idx) {
            assert(entry(mem1, t2 as int, i2) == entry(mem0, t2 as int, i2));
        }
    }
    assert forall|t: u64| #[trigger] levels.dom().contains(t) implies usable_table(mem1, alloc1, t) by {
        assert(usable_table(mem0, alloc0, t));
    }
}

/// Pointing an absent slot at a fresh zeroed page taken from free memory
/// grows the tree by that page, one level below the slot's table.
proof fn lemma_tree_grown(
    mem0: PhysicalMemory,
    mem1: PhysicalMemory,
    alloc0: PhysicalAllocator,
    alloc1: PhysicalAllocator,
    root: u64,
    levels: Map<u64, int>,
    t: u64,
    idx: int,
    child: u64,
)
    requires
        tree_ok(mem0, alloc0, root, levels),
        levels.dom().contains(t),
        levels[t] >= 2,
        0 <= idx < TABLE_ENTRIES,
        changed_only(mem1, mem0, child as int, t + 8 * idx),
        child as int % PAGE_SIZE as int == 0,
        mem0.covers(child as int, child + PAGE_SIZE),
        forall|a: int| child <= a < child + PAGE_SIZE ==> #[trigger] alloc0.is_free(a) && !alloc1.is_free(a)
            && mem1.byte(a) == 0,
        forall|a: int| #[trigger] alloc1.is_free(a) ==> alloc0.is_free(a),
        child_table(mem1, t as int, idx, levels[t]) == Some(child),
    ensures
        !levels.dom().contains(child),
        tree_ok(mem1, alloc1, root, levels.insert(child, levels[t] - 1)),
        forall|t2: u64, i2: int| levels.dom().contains(t2) && 0 <= i2 < TABLE_ENTRIES && !(t2 == t && i2 == idx)
            ==> #[trigger] entry(mem1, t2 as int, i2) == entry(mem0, t2 as int, i2),
        forall|i2: int| 0 <= i2 < TABLE_ENTRIES ==> #[trigger] entry(mem1, child as int, i2) == 0,
{
    let grown = levels.insert(child, levels[t] - 1);
    if levels.dom().contains(child) {
        assert(alloc0.is_free(child as int));
    }
    assert forall|t2: u64, i2: int| levels.dom().contains(t2) && 0 <= i2 < TABLE_ENTRIES && !(t2 == t && i2 == idx)
        implies #[trigger] entry(mem1, t2 as int, i2) == entry(mem0, t2 as int, i2) by {
        lemma_slots_apart(t, idx, t2, i2);
        lemma_kept_and_free_apart(alloc0, t2, child);
        lemma_entry_kept(mem1, mem0, child as int, t + 8 * idx, t2 as int, i2);
    }
    assert forall|i2: int| 0 <= i2 < TABLE_ENTRIES implies #[trigger] entry(mem1, child as int, i2) == 0 by {
        assert forall|a: int| child + 8 * i2 <= a < child + 8 * i2 + 8 implies #[trigger] mem1.byte(a) == 0 by {
            assert(child <= a < child + PAGE_SIZE);
            assert(alloc0.is_free(a));
        }
        lemma_zero_entry(mem1, child as int, i2);
    }
    assert forall|i2: int, level: int| 0 <= i2 < TABLE_ENTRIES implies #[trigger] child_table(mem1, child as int, i2, level) is None by {
        assert(entry(mem1, child as int, i2) == 0);
        lemma_zero_absent();
    }
    assert forall|t2: u64, i2: int| levels.dom().contains(t2) && 0 <= i2 < TABLE_ENTRIES && !(t2 == t && i2 == idx)
        implies #[trigger] child_table(mem1, t2 as int, i2, levels[t2]) == child_table(mem0, t2 as int, i2, levels[t2]) by {
        assert(entry(mem1, t2 as int, i2) == entry(mem0, t2 as int, i2));
    }
    assert forall|t2: u64| #[trigger] grown.dom().contains(t2) implies 1 <= grown[t2] <= 4 && usable_table(mem1, alloc1, t2) by {
        if t2 != child {
            assert(levels.dom().contains(t2));
            assert(usable_table(mem0, alloc0, t2));
        }
    }
    assert forall|t2: u64, i2: int|
        grown.dom().contains(t2) && 0 <= i2 < TABLE_ENTRIES && (#[trigger] child_table(mem1, t2 as int, i2, grown[t2])) is Some
        implies grown.dom().contains(child_table(mem1, t2 as int, i2, grown[t2]).unwrap())
            && grown[child_table(mem1, t2 as int, i2, grown[t2]).unwrap()] == grown[t2] - 1 by {
        if t2 != child {
            assert(grown[t2] == levels[t2]);
            if !(t2 == t && i2 == idx) {
                let c = child_table(mem0, t2 as int, i2, levels[t2]).unwrap();
                assert(levels.dom().contains(c));
                assert(c != child);
            }
        }
    }
    assert forall|t1: u64, i1: int, t2: u64, i2: int|
        grown.dom().contains(t1) && grown.dom().contains(t2) && 0 <= i1 < TABLE_ENTRIES && 0 <= i2 < TABLE_ENTRIES
        && (#[trigger] child_table(mem1, t1 as int, i1, grown[t1])) is Some
        && child_table(mem1, t1 as int, i1, grown[t1]) == #[trigger] child_table(mem1, t2 as int, i2, grown[t2])
        implies t1 == t2 && i1 == i2 by {
        if t1 != child && t2 != child {
            assert(grown[t1] == levels[t1]);
            assert(grown[t2] == levels[t2]);
            if t1 == t && i1 == idx {
                if !(t2 == t && i2 == idx) {
                    assert(levels.dom().contains(child_table(mem0, t2 as int, i2, levels[t2]).unwrap()));
                }
            } else if t2 == t && i2 == idx {
                assert(levels.dom().contains(child_table(mem0, t1 as int, i1, levels[t1]).unwrap()));
            } else {
                assert(child_table(mem0, t1 as int, i1, levels[t1]) == child_table(mem0, t2 as int, i2, levels[t2]));
            }
        }
    }
}

/// A child link of a table in the tree that survives each of three steps
/// survives all three.
proof fn lemma_link_kept3(
    mem0: PhysicalMemory,
    mem1: PhysicalMemory,
    mem2: PhysicalMemory,
    mem3: PhysicalMemory,
    levels0: Map<u64, int>,
    levels1: Map<u64, int>,
    levels2: Map<u64, int>,
    t: u64,
    i: int,
)
    requires
        levels_grow(levels0, levels1),
        levels_grow(levels1, levels2),
        levels0.dom().contains(t),
        0 <= i < TABLE_ENTRIES,
        child_table(mem0, t as int, i, levels0[t]) is Some,
        forall|t2: u64, i2: int| levels0.dom().contains(t2) && 0 <= i2 < TABLE_ENTRIES
            && (#[trigger] child_table(mem0, t2 as int, i2, levels0[t2])) is Some
            ==> child_table(mem1, t2 as int, i2, levels0[t2]) == child_table(mem0, t2 as int, i2, levels0[t2]),
        forall|t2: u64, i2: int| levels1.dom().contains(t2) && 0 <= i2 < TABLE_ENTRIES
            && (#[trigger] child_table(mem1, t2 as int, i2, levels1[t2])) is Some
            ==> child_table(mem2, t2 as int, i2, levels1[t2]) == child_table(mem1, t2 as int, i2, levels1[t2]),
        forall|t2: u64, i2: int| levels2.dom().contains(t2) && 0 <= i2 < TABLE_ENTRIES
            && (#[trigger] child_table(mem2, t2 as int, i2, levels2[t2])) is Some
            ==> child_table(mem3, t2 as int, i2, levels2[t2]) == child_table(mem2, t2 as int, i2, levels2[t2]),
    ensures
        child_table(mem3, t as int, i, levels0[t]) == child_table(mem0, t as int, i, levels0[t]),
{
    assert(child_table(mem1, t as int, i, levels1[t]) == child_table(mem0, t as int, i, levels0[t]));
    assert(child_table(mem2, t as int, i, levels2[t]) == child_table(mem0, t as int, i, levels0[t]));
}

/// An entry of a table in the tree that none of three steps touches keeps
/// its value.
proof fn lemma_entry_kept3(
    mem0: PhysicalMemory,
    mem1: PhysicalMemory,
    mem2: PhysicalMemory,
    mem3: PhysicalMemory,
    levels0: Map<u64, int>,
    levels1: Map<u64, int>,
    levels2: Map<u64, int>,
    s1: (u64, int),
    s2: (u64, int),
    s3: (u64, int),
    t: u64,
    i: int,
)
    requires
        levels_grow(levels0, levels1),
        levels_grow(levels1, levels2),
        levels0.dom().contains(t),
        0 <= i < TABLE_ENTRIES,
        (t, i) != s1 && (t, i) != s2 && (t, i) != s3,
        forall|t2: u64, i2: int| levels0.dom().contains(t2) && 0 <= i2 < TABLE_ENTRIES
            && (t2, i2) != s1 ==> #[trigger] entry(mem1, t2 as int, i2) == entry(mem0, t2 as int, i2),
        forall|t2: u64, i2: int| levels1.dom().contains(t2) && 0 <= i2 < TABLE_ENTRIES
            && (t2, i2) != s2 ==> #[trigger] entry(mem2, t2 as int, i2) == entry(mem1, t2 as int, i2),
        forall|t2: u64, i2: int| levels2.dom().contains(t2) && 0 <= i2 < TABLE_ENTRIES
            && (t2, i2) != s3 ==> #[trigger] entry(mem3, t2 as int, i2) == entry(mem2, t2 as int, i2),
    ensures
        entry(mem3, t as int, i) == entry(mem0, t as int, i),
{
    assert(entry(mem1, t as int, i) == entry(mem0, t as int, i));
    assert(entry(mem2, t as int, i) == entry(mem1, t as int, i));
}

/// A 4 KiB mapping that existed before the three table steps and the final
/// entry write of `map_4k` for `virt` is still there when it sits in another
/// slot than `virt`.
#[verifier::spinoff_prover]
proof fn lemma_walk_kept(
    mem0: PhysicalMemory,
    mem1: PhysicalMemory,
    mem2: PhysicalMemory,
    mem3: PhysicalMemory,
    mem4: PhysicalMemory,
    root: u64,
    levels0: Map<u64, int>,
    levels1: Map<u64, int>,
    levels2: Map<u64, int>,
    levels3: Map<u64, int>,
    v: u64,
    pdpt: u64,
    pd: u64,
    pt: u64,
    virt: u64,
)
    requires
        levels0.dom().contains(root) && levels0[root] == 4,
        forall|t: u64| #[trigger] levels0.dom().contains(t) ==> 1 <= levels0[t] <= 4,
        forall|t: u64, i: int| levels0.dom().contains(t) && 0 <= i < TABLE_ENTRIES
            && (#[trigger] child_table(mem0, t as int, i, levels0[t])) is Some
            ==> levels0.dom().contains(child_table(mem0, t as int, i, levels0[t]).unwrap())
                && levels0[child_table(mem0, t as int, i, levels0[t]).unwrap()] == levels0[t] - 1,
        levels_grow(levels0, levels1),
        levels_grow(levels1, levels2),
        levels_grow(levels2, levels3),
        levels1.dom().contains(pdpt) && levels1[pdpt] == 3,
        levels2.dom().contains(pd) && levels2[pd] == 2,
        levels3.dom().contains(pt) && levels3[pt] == 1,
        child_table(mem3, root as int, spec_pml4_index(virt), 4) == Some(pdpt),
        child_table(mem3, pdpt as int, spec_pdpt_index(virt), 3) == Some(pd),
        child_table(mem3, pd as int, spec_pd_index(virt), 2) == Some(pt),
        forall|t2: u64, i2: int| levels0.dom().contains(t2) && 0 <= i2 < TABLE_ENTRIES
            && !(t2 == root && i2 == spec_pml4_index(virt)) ==> #[trigger] entry(mem1, t2 as int, i2) == entry(mem0, t2 as int, i2),
        forall|t2: u64, i2: int| levels0.dom().contains(t2) && 0 <= i2 < TABLE_ENTRIES
            && (#[trigger] child_table(mem0, t2 as int, i2, levels0[t2])) is Some
            ==> child_table(mem1, t2 as int, i2, levels0[t2]) == child_table(mem0, t2 as int, i2, levels0[t2]),
        forall|t2: u64, i2: int| levels1.dom().contains(t2) && 0 <= i2 < TABLE_ENTRIES
            && !(t2 == pdpt && i2 == spec_pdpt_index(virt)) ==> #[trigger] entry(mem2, t2 as int, i2) == entry(mem1, t2 as int, i2),
        forall|t2: u64, i2: int| levels1.dom().contains(t2) && 0 <= i2 < TABLE_ENTRIES
            && (#[trigger] child_table(mem1, t2 as int, i2, levels1[t2])) is Some
            ==> child_table(mem2, t2 as int, i2, levels1[t2]) == child_table(mem1, t2 as int, i2, levels1[t2]),
        forall|t2: u64, i2: int| levels2.dom().contains(t2) && 0 <= i2 < TABLE_ENTRIES
            && !(t2 == pd && i2 == spec_pd_index(virt)) ==> #[trigger] entry(mem3, t2 as int, i2) == entry(mem2, t2 as int, i2),
        forall|t2: u64, i2: int| levels2.dom().contains(t2) && 0 <= i2 < TABLE_ENTRIES
            && (#[trigger] child_table(mem2, t2 as int, i2, levels2[t2])) is Some
            ==> child_table(mem3, t2 as int, i2, levels2[t2]) == child_table(mem2, t2 as int, i2, levels2[t2]),
        forall|t2: u64, i2: int| levels3.dom().contains(t2) && 0 <= i2 < TABLE_ENTRIES
            && !(t2 == pt && i2 == spec_pt_index(virt)) ==> #[trigger] entry(mem4, t2 as int, i2) == entry(mem3, t2 as int, i2),
        forall|t1: u64, i1: int, t2: u64, i2: int|
            levels3.dom().contains(t1) && levels3.dom().contains(t2) && 0 <= i1 < TABLE_ENTRIES && 0 <= i2 < TABLE_ENTRIES
            && (#[trigger] child_table(mem3, t1 as int, i1, levels3[t1])) is Some
            && child_table(mem3, t1 as int, i1, levels3[t1]) == #[trigger] child_table(mem3, t2 as int, i2, levels3[t2])
            ==> t1 == t2 && i1 == i2,
        !same_4k_slot(v, virt),
        translate_4k(mem0, root, v) is Some,
    ensures
        translate_4k(mem4, root, v) == translate_4k(mem0, root, v),
{
    let i4 = spec_pml4_index(virt);
    let i3 = spec_pdpt_index(virt);
    let i2 = spec_pd_index(virt);
    let i1 = spec_pt_index(virt);
    lemma_index_bounds(virt);
    lemma_index_bounds(v);
    let v4 = spec_pml4_index(v);
    let v3 = spec_pdpt_index(v);
    let v2 = spec_pd_index(v);
    let v1 = spec_pt_index(v);
    let a = child_table(mem0, root as int, v4, 4).unwrap();
    let b = child_table(mem0, a as int, v3, 3).unwrap();
    let c = child_table(mem0, b as int, v2, 2).unwrap();
    assert(levels0[a] == 3 && levels0[b] == 2 && levels0[c] == 1);
    lemma_link_kept3(mem0, mem1, mem2, mem3, levels0, levels1, levels2, root, v4);
    lemma_link_kept3(mem0, mem1, mem2, mem3, levels0, levels1, levels2, a, v3);
    lemma_link_kept3(mem0, mem1, mem2, mem3, levels0, levels1, levels2, b, v2);
    assert(entry(mem4, root as int, v4) == entry(mem3, root as int, v4));
    assert(entry(mem4, a as int, v3) == entry(mem3, a as int, v3));
    assert(entry(mem4, b as int, v2) == entry(mem3, b as int, v2));
    assert(levels1[c] == 1 && levels2[c] == 1);
    lemma_entry_kept3(mem0, mem1, mem2, mem3, levels0, levels1, levels2,
        (root, i4), (pdpt, i3), (pd, i2), c, v1);
    if c == pt && v1 == i1 {
        lemma_same_leaf_same_slot(mem3, levels3, root, pdpt, pd, pt, a, b, virt, v);
    }
    assert(entry(mem4, c as int, v1) == entry(mem3, c as int, v1));
}

/// Where the page-directory walk of `v` leads after the two upper steps of a
/// mapping of `virt`: to the page directory of `virt` when `v` shares its
/// upper slots, and otherwise to the same old page directory as before.
#[verifier::spinoff_prover]
proof fn lemma_walk_pd_after_two(
    mem0: PhysicalMemory,
    mem1: PhysicalMemory,
    mem2: PhysicalMemory,
    levels0: Map<u64, int>,
    levels1: Map<u64, int>,
    levels2: Map<u64, int>,
    root: u64,
    pdpt: u64,
    pd: u64,
    virt: u64,
    v: u64,
)
    requires
        levels0.dom().contains(root) && levels0[root] == 4,
        forall|t: u64| #[trigger] levels0.dom().contains(t) ==> 1 <= levels0[t] <= 4,
        forall|t: u64, i: int| levels0.dom().contains(t) && 0 <= i < TABLE_ENTRIES
            && (#[trigger] child_table(mem0, t as int, i, levels0[t])) is Some
            ==> levels0.dom().contains(child_table(mem0, t as int, i, levels0[t]).unwrap())
                && levels0[child_table(mem0, t as int, i, levels0[t]).unwrap()] == levels0[t] - 1,
        levels_grow(levels0, levels1),
        levels_grow(levels1, levels2),
        levels1.dom().contains(pdpt) && levels1[pdpt] == 3,
        levels2.dom().contains(pd) && levels2[pd] == 2,
        child_table(mem1, root as int, spec_pml4_index(virt), 4) == Some(pdpt),
        child_table(mem2, pdpt as int, spec_pdpt_index(virt), 3) == Some(pd),
        child_table(mem0, root as int, spec_pml4_index(virt), 4) is Some
            ==> child_table(mem0, root as int, spec_pml4_index(virt), 4) == Some(pdpt),
        child_table(mem0, root as int, spec_pml4_index(virt), 4) is None
            ==> !levels0.dom().contains(pdpt) && forall|k: int| 0 <= k < TABLE_ENTRIES ==> #[trigger] entry(mem1, pdpt as int, k) == 0,
        forall|t2: u64, i2: int| levels0.dom().contains(t2) && 0 <= i2 < TABLE_ENTRIES
            && !(t2 == root && i2 == spec_pml4_index(virt)) ==> #[trigger] entry(mem1, t2 as int, i2) == entry(mem0, t2 as int, i2),
        forall|t2: u64, i2: int| levels1.dom().contains(t2) && 0 <= i2 < TABLE_ENTRIES
            && !(t2 == pdpt && i2 == spec_pdpt_index(virt)) ==> #[trigger] entry(mem2, t2 as int, i2) == entry(mem1, t2 as int, i2),
        forall|t1: u64, i1: int, t2: u64, i2: int|
            levels2.dom().contains(t1) && levels2.dom().contains(t2) && 0 <= i1 < TABLE_ENTRIES && 0 <= i2 < TABLE_ENTRIES
            && (#[trigger] child_table(mem2, t1 as int, i1, levels2[t1])) is Some
            && child_table(mem2, t1 as int, i1, levels2[t1]) == #[trigger] child_table(mem2, t2 as int, i2, levels2[t2])
            ==> t1 == t2 && i1 == i2,
        walk_pd(mem2, root, v) is Some,
    ensures
        (spec_pml4_index(v) == spec_pml4_index(virt) && spec_pdpt_index(v) == spec_pdpt_index(virt)
            && walk_pd(mem2, root, v) == Some(pd))
        || (walk_pd(mem0, root, v) == walk_pd(mem2, root, v) && levels0.dom().contains(walk_pd(mem0, root, v).unwrap())
            && levels0[walk_pd(mem0, root, v).unwrap()] == 2),
{
    lemma_index_bounds(v);
    lemma_index_bounds(virt);
    let i4 = spec_pml4_index(virt);
    let i3 = spec_pdpt_index(virt);
    let v4 = spec_pml4_index(v);
    let v3 = spec_pdpt_index(v);
    assert(entry(mem2, root as int, i4) == entry(mem1, root as int, i4));
    if v4 == i4 {
        assert(walk_pdpt(mem2, root, v) == Some(pdpt));
        if v3 != i3 {
            assert(entry(mem2, pdpt as int, v3) == entry(mem1, pdpt as int, v3));
            if child_table(mem0, root as int, i4, 4) is None {
                assert(entry(mem1, pdpt as int, v3) == 0);
                lemma_zero_absent();
            }
            assert(entry(mem1, pdpt as int, v3) == entry(mem0, pdpt as int, v3));
        }
    } else {
        assert(entry(mem1, root as int, v4) == entry(mem0, root as int, v4));
        assert(entry(mem2, root as int, v4) == entry(mem1, root as int, v4));
        let y = child_table(mem0, root as int, v4, 4).unwrap();
        assert(levels0[y] == 3);
        if y == pdpt {
            assert(child_table(mem2, root as int, i4, 4) == Some(pdpt));
        }
        assert(entry(mem2, y as int, v3) == entry(mem1, y as int, v3));
        assert(entry(mem1, y as int, v3) == entry(mem0, y as int, v3));
    }
}

/// After the two upper steps of a mapping of `virt` and changes below them
/// that leave every other entry of the upper three levels alone, a 2 MiB
/// mapping at `v` is either one that existed before or the one in the slot
/// of `virt`.
#[verifier::spinoff_prover]
proof fn lemma_huge_after(
    mem0: PhysicalMemory,
    mem1: PhysicalMemory,
    mem2: PhysicalMemory,
    memf: PhysicalMemory,
    levels0: Map<u64, int>,
    levels1: Map<u64, int>,
    levels2: Map<u64, int>,
    root: u64,
    pdpt: u64,
    pd: u64,
    virt: u64,
    v: u64,
)
    requires
        levels0.dom().contains(root) && levels0[root] == 4,
        forall|t: u64| #[trigger] levels0.dom().contains(t) ==> 1 <= levels0[t] <= 4,
        forall|t: u64, i: int| levels0.dom().contains(t) && 0 <= i < TABLE_ENTRIES
            && (#[trigger] child_table(mem0, t as int, i, levels0[t])) is Some
            ==> levels0.dom().contains(child_table(mem0, t as int, i, levels0[t]).unwrap())
                && levels0[child_table(mem0, t as int, i, levels0[t]).unwrap()] == levels0[t] - 1,
        forall|t: u64, i: int| levels2.dom().contains(t) && 0 <= i < TABLE_ENTRIES
            && (#[trigger] child_table(mem2, t as int, i, levels2[t])) is Some
            ==> levels2.dom().contains(child_table(mem2, t as int, i, levels2[t]).unwrap())
                && levels2[child_table(mem2, t as int, i, levels2[t]).unwrap()] == levels2[t] - 1,
        levels_grow(levels0, levels1),
        levels_grow(levels1, levels2),
        levels1.dom().contains(pdpt) && levels1[pdpt] == 3,
        levels2.dom().contains(pd) && levels2[pd] == 2,
        child_table(mem1, root as int, spec_pml4_index(virt), 4) == Some(pdpt),
        child_table(mem2, pdpt as int, spec_pdpt_index(virt), 3) == Some(pd),
        child_table(mem0, root as int, spec_pml4_index(virt), 4) is Some
            ==> child_table(mem0, root as int, spec_pml4_index(virt), 4) == Some(pdpt),
        child_table(mem0, root as int, spec_pml4_index(virt), 4) is None
            ==> !levels0.dom().contains(pdpt) && forall|k: int| 0 <= k < TABLE_ENTRIES ==> #[trigger] entry(mem1, pdpt as int, k) == 0,
        child_table(mem1, pdpt as int, spec_pdpt_index(virt), 3) is Some
            ==> child_table(mem1, pdpt as int, spec_pdpt_index(virt), 3) == Some(pd),
        child_table(mem1, pdpt as int, spec_pdpt_index(virt), 3) is None
            ==> !levels1.dom().contains(pd) && forall|k: int| 0 <= k < TABLE_ENTRIES ==> #[trigger] entry(mem2, pd as int, k) == 0,
        forall|t2: u64, i2: int| levels0.dom().contains(t2) && 0 <= i2 < TABLE_ENTRIES
            && !(t2 == root && i2 == spec_pml4_index(virt)) ==> #[trigger] entry(mem1, t2 as int, i2) == entry(mem0, t2 as int, i2),
        forall|t2: u64, i2: int| levels1.dom().contains(t2) && 0 <= i2 < TABLE_ENTRIES
            && !(t2 == pdpt && i2 == spec_pdpt_index(virt)) ==> #[trigger] entry(mem2, t2 as int, i2) == entry(mem1, t2 as int, i2),
        forall|t1: u64, i1: int, t2: u64, i2: int|
            levels2.dom().contains(t1) && levels2.dom().contains(t2) && 0 <= i1 < TABLE_ENTRIES && 0 <= i2 < TABLE_ENTRIES
            && (#[trigger] child_table(mem2, t1 as int, i1, levels2[t1])) is Some
            && child_table(mem2, t1 as int, i1, levels2[t1]) == #[trigger] child_table(mem2, t2 as int, i2, levels2[t2])
            ==> t1 == t2 && i1 == i2,
        forall|t2: u64, i2: int| levels2.dom().contains(t2) && 0 <= i2 < TABLE_ENTRIES && levels2[t2] >= 2
            && !(t2 == pd && i2 == spec_pd_index(virt)) ==> #[trigger] entry(memf, t2 as int, i2) == entry(mem2, t2 as int, i2),
        huge_on_path(memf, root, v),
    ensures
        huge_on_path(mem0, root, v) && translate_2m(memf, root, v) == translate_2m(mem0, root, v)
        || (spec_pml4_index(v) == spec_pml4_index(virt) && spec_pdpt_index(v) == spec_pdpt_index(virt)
            && spec_pd_index(v) == spec_pd_index(virt) && translate_2m(memf, root, v) == Some(entry(memf, pd as int, spec_pd_index(virt)))),
{
    lemma_index_bounds(v);
    lemma_index_bounds(virt);
    let v4 = spec_pml4_index(v);
    let v3 = spec_pdpt_index(v);
    let v2 = spec_pd_index(v);
    let i4 = spec_pml4_index(virt);
    let i3 = spec_pdpt_index(virt);
    let i2 = spec_pd_index(virt);
    // the walk down to the page directory is the one after the two upper steps
    assert(entry(memf, root as int, v4) == entry(mem2, root as int, v4));
    let y = child_table(mem2, root as int, v4, 4).unwrap();
    assert(levels2[y] == 3);
    assert(entry(memf, y as int, v3) == entry(mem2, y as int, v3));
    assert(walk_pd(memf, root, v) == walk_pd(mem2, root, v));
    let x = walk_pd(mem2, root, v).unwrap();
    lemma_walk_pd_after_two(mem0, mem1, mem2, levels0, levels1, levels2, root, pdpt, pd, virt, v);
    if v4 == i4 && v3 == i3 && x == pd {
        if v2 != i2 {
            assert(entry(memf, pd as int, v2) == entry(mem2, pd as int, v2));
            if child_table(mem1, pdpt as int, i3, 3) is None {
                assert(entry(mem2, pd as int, v2) == 0);
                lemma_zero_absent();
            }
            if child_table(mem0, root as int, i4, 4) is None {
                assert(entry(mem1, pdpt as int, i3) == 0);
                lemma_zero_absent();
            }
            assert(entry(mem1, pdpt as int, i3) == entry(mem0, pdpt as int, i3));
            assert(walk_pd(mem0, root, v) == Some(pd));
            assert(levels1[pd] == 2);
            assert(entry(mem2, pd as int, v2) == entry(mem1, pd as int, v2));
            assert(entry(mem1, pd as int, v2) == entry(mem0, pd as int, v2));
        }
    } else {
        assert(walk_pd(mem0, root, v) == Some(x));
        assert(levels0[x] == 2);
        if x == pd && v2 == i2 {
            assert(walk_pd(mem2, root, virt) == Some(pd));
            assert(child_table(mem2, y as int, v3, 3) == Some(pd));
            assert(walk_pdpt(mem2, root, virt) == Some(pdpt));
            assert(y == pdpt && v3 == i3);
            assert(v4 == i4);
        } else {
            assert(entry(memf, x as int, v2) == entry(mem2, x as int, v2));
            assert(entry(mem2, x as int, v2) == entry(mem1, x as int, v2));
            assert(entry(mem1, x as int, v2) == entry(mem0, x as int, v2));
        }
    }
}

/// A 2 MiB mapping in another slot than `virt` survives the two upper steps
/// and the page-directory write of `map_2m`.
#[verifier::spinoff_prover]
proof fn lemma_huge_kept_2m(
    mem0: PhysicalMemory,
    mem1: PhysicalMemory,
    mem2: PhysicalMemory,
    mem3: PhysicalMemory,
    levels0: Map<u64, int>,
    levels1: Map<u64, int>,
    levels2: Map<u64, int>,
    root: u64,
    pdpt: u64,
    pd: u64,
    virt: u64,
    v: u64,
)
    requires
        levels0.dom().contains(root) && levels0[root] == 4,
        forall|t: u64| #[trigger] levels0.dom().contains(t) ==> 1 <= levels0[t] <= 4,
        forall|t: u64, i: int| levels0.dom().contains(t) && 0 <= i < TABLE_ENTRIES
            && (#[trigger] child_table(mem0, t as int, i, levels0[t])) is Some
            ==> levels0.dom().contains(child_table(mem0, t as int, i, levels0[t]).unwrap())
                && levels0[child_table(mem0, t as int, i, levels0[t]).unwrap()] == levels0[t] - 1,
        levels_grow(levels0, levels1),
        levels_grow(levels1, levels2),
        levels1.dom().contains(pdpt) && levels1[pdpt] == 3,
        levels2.dom().contains(pd) && levels2[pd] == 2,
        child_table(mem2, root as int, spec_pml4_index(virt), 4) == Some(pdpt),
        child_table(mem2, pdpt as int, spec_pdpt_index(virt), 3) == Some(pd),
        forall|t2: u64, i2: int| levels0.dom().contains(t2) && 0 <= i2 < TABLE_ENTRIES
            && !(t2 == root && i2 == spec_pml4_index(virt)) ==> #[trigger] entry(mem1, t2 as int, i2) == entry(mem0, t2 as int, i2),
        forall|t2: u64, i2: int| levels0.dom().contains(t2) && 0 <= i2 < TABLE_ENTRIES
            && (#[trigger] child_table(mem0, t2 as int, i2, levels0[t2])) is Some
            ==> child_table(mem1, t2 as int, i2, levels0[t2]) == child_table(mem0, t2 as int, i2, levels0[t2]),
        forall|t2: u64, i2: int| levels1.dom().contains(t2) && 0 <= i2 < TABLE_ENTRIES
            && !(t2 == pdpt && i2 == spec_pdpt_index(virt)) ==> #[trigger] entry(mem2, t2 as int, i2) == entry(mem1, t2 as int, i2),
        forall|t2: u64, i2: int| levels1.dom().contains(t2) && 0 <= i2 < TABLE_ENTRIES
            && (#[trigger] child_table(mem1, t2 as int, i2, levels1[t2])) is Some
            ==> child_table(mem2, t2 as int, i2, levels1[t2]) == child_table(mem1, t2 as int, i2, levels1[t2]),
        forall|t2: u64, i2: int| levels2.dom().contains(t2) && 0 <= i2 < TABLE_ENTRIES
            && !(t2 == pd && i2 == spec_pd_index(virt)) ==> #[trigger] entry(mem3, t2 as int, i2) == entry(mem2, t2 as int, i2),
        forall|t1: u64, i1: int, t2: u64, i2: int|
            levels2.dom().contains(t1) && levels2.dom().contains(t2) && 0 <= i1 < TABLE_ENTRIES && 0 <= i2 < TABLE_ENTRIES
            && (#[trigger] child_table(mem2, t1 as int, i1, levels2[t1])) is Some
            && child_table(mem2, t1 as int, i1, levels2[t1]) == #[trigger] child_table(mem2, t2 as int, i2, levels2[t2])
            ==> t1 == t2 && i1 == i2,
        !same_2m_slot(v, virt),
        huge_on_path(mem0, root, v),
    ensures
        translate_2m(mem3, root, v) == translate_2m(mem0, root, v),
{
    lemma_index_bounds(v);
    lemma_index_bounds(virt);
    let v4 = spec_pml4_index(v);
    let v3 = spec_pdpt_index(v);
    let v2 = spec_pd_index(v);
    let a = child_table(mem0, root as int, v4, 4).unwrap();
    let b = child_table(mem0, a as int, v3, 3).unwrap();
    assert(levels0[a] == 3 && levels0[b] == 2);
    assert(child_table(mem1, root as int, v4, 4) == Some(a));
    assert(child_table(mem2, root as int, v4, 4) == Some(a));
    assert(child_table(mem1, a as int, v3, 3) == Some(b));
    assert(child_table(mem2, a as int, v3, 3) == Some(b));
    assert(entry(mem3, root as int, v4) == entry(mem2, root as int, v4));
    assert(entry(mem3, a as int, v3) == entry(mem2, a as int, v3));
    if b == pd && v2 == spec_pd_index(virt) {
        assert(a == pdpt && v3 == spec_pdpt_index(virt));
        assert(v4 == spec_pml4_index(virt));
    }
    assert(entry(mem3, b as int, v2) == entry(mem2, b as int, v2));
    assert(entry(mem2, b as int, v2) == entry(mem1, b as int, v2));
    assert(entry(mem1, b as int, v2) == entry(mem0, b as int, v2));
}

/// Addresses below the identity limit in different 4 KiB pages use
/// different table slots.
pub proof fn lemma_distinct_4k_slots(a: u64, b: u64)
    requires
        a < IDENTITY_LIMIT,
        b < IDENTITY_LIMIT,
        a + PAGE_SIZE <= b || (a < b && b as int % PAGE_SIZE as int == 0),
    ensures
        !same_4k_slot(a, b),
{
    assert(a >> 12u64 != b >> 12u64) by (bit_vector)
        requires
            a + 4096 <= b || (a < b && b % 4096 == 0),
    ;
    assert(((a >> 39u64) & 0x1ffu64) == ((b >> 39u64) & 0x1ffu64) && ((a >> 30u64) & 0x1ffu64) == ((b >> 30u64) & 0x1ffu64)
        && ((a >> 21u64) & 0x1ffu64) == ((b >> 21u64) & 0x1ffu64) && ((a >> 12u64) & 0x1ffu64) == ((b >> 12u64) & 0x1ffu64)
        ==> a >> 12u64 == b >> 12u64) by (bit_vector)
        requires
            a < 0x0000_8000_0000_0000u64,
            b < 0x0000_8000_0000_0000u64,
    ;
}

/// An address in the 4 KiB page that starts at `page` uses the page's slots.
proof fn lemma_same_4k_slot_within(a: u64, page: u64)
    requires
        page as int % PAGE_SIZE as int == 0,
        page <= a < page + PAGE_SIZE,
    ensures
        same_4k_slot(a, page),
        a as int / PAGE_SIZE as int == page as int / PAGE_SIZE as int,
{
    assert(a >> 12u64 == page >> 12u64) by (bit_vector)
        requires
            page % 4096 == 0,
            page <= a,
            a < page + 4096,
    ;
    assert(a >> 12u64 == page >> 12u64 ==> ((a >> 39u64) & 0x1ffu64) == ((page >> 39u64) & 0x1ffu64)
        && ((a >> 30u64) & 0x1ffu64) == ((page >> 30u64) & 0x1ffu64)
        && ((a >> 21u64) & 0x1ffu64) == ((page >> 21u64) & 0x1ffu64)
        && ((a >> 12u64) & 0x1ffu64) == ((page >> 12u64) & 0x1ffu64)) by (bit_vector);
}

/// Addresses below the identity limit in different 2 MiB pages use
/// different page-directory slots.
proof fn lemma_distinct_2m_slots(a: u64, b: u64)
    requires
        a < IDENTITY_LIMIT,
        b < IDENTITY_LIMIT,
        a < b,
        b as int % LARGE_PAGE_SIZE as int == 0,
    ensures
        !same_2m_slot(a, b),
{
    assert(((a >> 39u64) & 0x1ffu64) == ((b >> 39u64) & 0x1ffu64) && ((a >> 30u64) & 0x1ffu64) == ((b >> 30u64) & 0x1ffu64)
        && ((a >> 21u64) & 0x1ffu64) == ((b >> 21u64) & 0x1ffu64) ==> false) by (bit_vector)
        requires
            a < 0x0000_8000_0000_0000u64,
            b < 0x0000_8000_0000_0000u64,
            a < b,
            b % 0x20_0000 == 0,
    ;
}

/// An address in the 2 MiB page that starts at `page` uses the page's slot.
proof fn lemma_same_2m_slot_within(a: u64, page: u64)
    requires
        page as int % LARGE_PAGE_SIZE as int == 0,
        page <= a < page + LARGE_PAGE_SIZE,
    ensures
        same_2m_slot(a, page),
        a as int - a as int % LARGE_PAGE_SIZE as int == page,
{
    assert(((a >> 39u64) & 0x1ffu64) == ((page >> 39u64) & 0x1ffu64) && ((a >> 30u64) & 0x1ffu64) == ((page >> 30u64) & 0x1ffu64)
        && ((a >> 21u64) & 0x1ffu64) == ((page >> 21u64) & 0x1ffu64)) by (bit_vector)
        requires
            page % 0x20_0000 == 0,
            page <= a,
            a < page + 0x20_0000,
    ;
    assert(a - a % 0x20_0000 == page) by (bit_vector)
        requires
            page % 0x20_0000 == 0,
            page <= a,
            a < page + 0x20_0000,
    ;
}

/// Sharing the page-directory slot of a 2 MiB boundary below the identity
/// limit means lying in that 2 MiB page.
proof fn lemma_same_2m_slot_near(v: u64, page: u64)
    requires
        same_2m_slot(v, page),
        page as int % LARGE_PAGE_SIZE as int == 0,
        v < IDENTITY_LIMIT,
        page < IDENTITY_LIMIT,
    ensures
        page <= v < page + LARGE_PAGE_SIZE,
{
    assert(((v >> 39u64) & 0x1ffu64) == ((page >> 39u64) & 0x1ffu64) && ((v >> 30u64) & 0x1ffu64) == ((page >> 30u64) & 0x1ffu64)
        && ((v >> 21u64) & 0x1ffu64) == ((page >> 21u64) & 0x1ffu64) ==> page <= v && v < page + 0x20_0000) by (bit_vector)
        requires
            page % 0x20_0000 == 0,
            v < 0x0000_8000_0000_0000u64,
            page < 0x0000_8000_0000_0000u64,
    ;
}

/// One step of an identity 2 MiB range: the page at `address` joins the
/// pages below it.
proof fn lemma_2m_range_step(
    mem0: PhysicalMemory,
    before: PhysicalMemory,
    after: PhysicalMemory,
    root: u64,
    first: u64,
    address: u64,
    limit: u64,
    flags: u64,
)
    requires
        first <= address < limit,
        address as int % LARGE_PAGE_SIZE as int == 0,
        limit as int % LARGE_PAGE_SIZE as int == 0,
        limit <= IDENTITY_LIMIT ==> forall|v: u64| #[trigger] huge_on_path(before, root, v) && v < IDENTITY_LIMIT
            ==> huge_on_path(mem0, root, v) || (first <= v < address),
        flags & PAGE_PRESENT != 0 && limit <= IDENTITY_LIMIT ==> forall|a: u64| first <= a < address
            ==> #[trigger] translate_2m(before, root, a) == Some(((a - a % LARGE_PAGE_SIZE) as u64) | flags | PAGE_HUGE),
        translate_2m(after, root, address) == Some(address | flags | PAGE_HUGE),
        forall|v: u64| !same_2m_slot(v, address) && #[trigger] huge_on_path(before, root, v)
            ==> translate_2m(after, root, v) == translate_2m(before, root, v),
        forall|v: u64| #[trigger] huge_on_path(after, root, v) ==> same_2m_slot(v, address) || huge_on_path(before, root, v),
    ensures
        limit <= IDENTITY_LIMIT ==> forall|v: u64| #[trigger] huge_on_path(after, root, v) && v < IDENTITY_LIMIT
            ==> huge_on_path(mem0, root, v) || (first <= v < address + LARGE_PAGE_SIZE),
        flags & PAGE_PRESENT != 0 && limit <= IDENTITY_LIMIT ==> forall|a: u64| first <= a < address + LARGE_PAGE_SIZE
            ==> #[trigger] translate_2m(after, root, a) == Some(((a - a % LARGE_PAGE_SIZE) as u64) | flags | PAGE_HUGE),
{
    if limit <= IDENTITY_LIMIT {
        assert forall|v: u64| #[trigger] huge_on_path(after, root, v) && v < IDENTITY_LIMIT
            implies huge_on_path(mem0, root, v) || (first <= v < address + LARGE_PAGE_SIZE) by {
            if same_2m_slot(v, address) {
                lemma_same_2m_slot_near(v, address);
            } else {
                assert(huge_on_path(before, root, v));
            }
        }
    }
    if flags & PAGE_PRESENT != 0 && limit <= IDENTITY_LIMIT {
        let value = address | flags | PAGE_HUGE;
        assert(value & PAGE_PRESENT != 0 && value & PAGE_HUGE != 0) by (bit_vector)
            requires
                value == address | flags | 0x80u64,
                flags & 1u64 != 0,
                PAGE_PRESENT == 1,
                PAGE_HUGE == 0x80,
        ;
        assert forall|a: u64| first <= a < address + LARGE_PAGE_SIZE
            implies #[trigger] translate_2m(after, root, a) == Some(((a - a % LARGE_PAGE_SIZE) as u64) | flags | PAGE_HUGE) by {
            if a < address {
                lemma_distinct_2m_slots(a, address);
                let w = ((a - a % LARGE_PAGE_SIZE) as u64) | flags | PAGE_HUGE;
                assert(translate_2m(before, root, a) == Some(w));
                assert(w & PAGE_PRESENT != 0 && w & PAGE_HUGE != 0) by (bit_vector)
                    requires
                        w == ((a - a % LARGE_PAGE_SIZE) as u64) | flags | 0x80u64,
                        flags & 1u64 != 0,
                        PAGE_PRESENT == 1,
                        PAGE_HUGE == 0x80,
                ;
                assert(huge_on_path(before, root, a));
            } else {
                lemma_same_2m_slot_within(a, address);
            }
        }
    }
}

/// One step of an identity 4 KiB range: the page at `address` joins the
/// pages below it, and mappings outside the range stay.
#[verifier::spinoff_prover]
proof fn lemma_4k_range_step(
    mem0: PhysicalMemory,
    before: PhysicalMemory,
    after: PhysicalMemory,
    root: u64,
    first: u64,
    address: u64,
    limit: u64,
    flags: u64,
)
    requires
        first <= address < limit,
        address as int % PAGE_SIZE as int == 0,
        limit as int % PAGE_SIZE as int == 0,
        limit <= IDENTITY_LIMIT ==> forall|a: u64| first <= a < address
            ==> #[trigger] translate_4k(before, root, a) == Some(((a - a % (PAGE_SIZE as u64)) as u64) | flags),
        limit <= IDENTITY_LIMIT ==> forall|v: u64| !(first <= v < limit) && v < IDENTITY_LIMIT
            && (#[trigger] translate_4k(mem0, root, v)) is Some
            ==> translate_4k(before, root, v) == translate_4k(mem0, root, v),
        translate_4k(after, root, address) == Some(address | flags),
        forall|v: u64| !same_4k_slot(v, address) && (#[trigger] translate_4k(before, root, v)) is Some
            ==> translate_4k(after, root, v) == translate_4k(before, root, v),
    ensures
        limit <= IDENTITY_LIMIT ==> forall|a: u64| first <= a < address + PAGE_SIZE
            ==> #[trigger] translate_4k(after, root, a) == Some(((a - a % (PAGE_SIZE as u64)) as u64) | flags),
        limit <= IDENTITY_LIMIT ==> forall|v: u64| !(first <= v < limit) && v < IDENTITY_LIMIT
            && (#[trigger] translate_4k(mem0, root, v)) is Some
            ==> translate_4k(after, root, v) == translate_4k(mem0, root, v),
{
    if limit <= IDENTITY_LIMIT {
        assert forall|a: u64| first <= a < address + PAGE_SIZE
            implies #[trigger] translate_4k(after, root, a) == Some(((a - a % (PAGE_SIZE as u64)) as u64) | flags) by {
            if a < address {
                assert(translate_4k(before, root, a) is Some);
                lemma_distinct_4k_slots(a, address);
            } else {
                lemma_same_4k_slot_within(a, address);
                assert(a - a % (PAGE_SIZE as u64) == address);
            }
        }
        assert forall|v: u64| !(first <= v < limit) && v < IDENTITY_LIMIT
            && (#[trigger] translate_4k(mem0, root, v)) is Some
            implies translate_4k(after, root, v) == translate_4k(mem0, root, v) by {
            assert(translate_4k(before, root, v) is Some);
            if v < first {
                lemma_distinct_4k_slots(v, address);
            } else {
                lemma_distinct_4k_slots(address, v);
            }
        }
    }
}

/// Changes confined to the tables compose as the tables grow.
pub proof fn lemma_changed_within_trans(
    m0: PhysicalMemory,
    m1: PhysicalMemory,
    m2: PhysicalMemory,
    l1: Map<u64, int>,
    l2: Map<u64, int>,
)
    requires
        changed_within(m1, m0, l1),
        changed_within(m2, m1, l2),
        levels_grow(l1, l2),
    ensures
        changed_within(m2, m0, l2),
{
    assert forall|a: int| m2.covers(a, a + 1) && !in_tables(l2, a) implies #[trigger] m2.byte(a) == m0.byte(a) by {
        if in_tables(l1, a) {
            let t = choose|t: u64| #[trigger] l1.dom().contains(t) && t <= a < t + PAGE_SIZE;
            assert(l2.dom().contains(t));
        }
        assert(m1.byte(a) == m0.byte(a));
    }
}

/// Tables added over two steps were free at the start.
pub proof fn lemma_new_free_trans(
    l0: Map<u64, int>,
    l1: Map<u64, int>,
    l2: Map<u64, int>,
    a0: PhysicalAllocator,
    a1: PhysicalAllocator,
)
    requires
        new_tables_were_free(l0, l1, a0),
        new_tables_were_free(l1, l2, a1),
        forall|a: int| #[trigger] a1.is_free(a) ==> a0.is_free(a),
    ensures
        new_tables_were_free(l0, l2, a0),
{
    assert forall|t: u64, a: int| #[trigger] l2.dom().contains(t) && !l0.dom().contains(t) && t <= a < t + PAGE_SIZE
        implies #[trigger] a0.is_free(a) by {
        if l1.dom().contains(t) {
        } else {
            assert(a1.is_free(a));
        }
    }
}

/// A write inside the page of a table is a change confined to the tables.
pub proof fn lemma_write_within(new: PhysicalMemory, old: PhysicalMemory, levels: Map<u64, int>, t: u64, lo: int, hi: int)
    requires
        new.same_outside(&old, lo, hi),
        levels.dom().contains(t),
        t <= lo <= hi <= t + PAGE_SIZE,
    ensures
        changed_within(new, old, levels),
{
    assert forall|a: int| new.covers(a, a + 1) && !in_tables(levels, a) implies #[trigger] new.byte(a) == old.byte(a) by {
        if lo <= a < hi {
            assert(levels.dom().contains(t) && t <= a < t + PAGE_SIZE);
        }
    }
}

/// Changes confined to the tables touch nothing else.
pub proof fn lemma_touched_from_changed(new: PhysicalMemory, old: PhysicalMemory, levels: Map<u64, int>, alloc: PhysicalAllocator)
    requires
        changed_within(new, old, levels),
    ensures
        touched_only(new, old, levels, alloc),
{
}

/// Touched-only changes compose as the tables grow and free memory shrinks.
pub proof fn lemma_touched_trans(
    m0: PhysicalMemory,
    m1: PhysicalMemory,
    m2: PhysicalMemory,
    l1: Map<u64, int>,
    l2: Map<u64, int>,
    a0: PhysicalAllocator,
    a1: PhysicalAllocator,
)
    requires
        touched_only(m1, m0, l1, a0),
        touched_only(m2, m1, l2, a1),
        levels_grow(l1, l2),
        forall|a: int| #[trigger] a1.is_free(a) ==> a0.is_free(a),
    ensures
        touched_only(m2, m0, l2, a0),
{
    assert forall|a: int| m2.covers(a, a + 1) && !in_tables(l2, a) && !a0.is_free(a) implies #[trigger] m2.byte(a) == m0.byte(a) by {
        if in_tables(l1, a) {
            let t = choose|t: u64| #[trigger] l1.dom().contains(t) && t <= a < t + PAGE_SIZE;
            assert(l2.dom().contains(t));
        }
        assert(!a1.is_free(a));
        assert(m1.byte(a) == m0.byte(a));
    }
}

/// One `ensure_level` step makes no new 2 MiB mapping and keeps the old ones.
#[verifier::spinoff_prover]
proof fn lemma_huge_step(
    mem0: PhysicalMemory,
    mem1: PhysicalMemory,
    levels0: Map<u64, int>,
    levels1: Map<u64, int>,
    root: u64,
    table: u64,
    index: int,
    level: int,
    v: u64,
)
    requires
        levels0.dom().contains(root) && levels0[root] == 4,
        levels0.dom().contains(table) && levels0[table] == level,
        levels_grow(levels0, levels1),
        forall|t: u64, i: int| levels1.dom().contains(t) && 0 <= i < TABLE_ENTRIES
            && (#[trigger] child_table(mem1, t as int, i, levels1[t])) is Some
            ==> levels1.dom().contains(child_table(mem1, t as int, i, levels1[t]).unwrap())
                && levels1[child_table(mem1, t as int, i, levels1[t]).unwrap()] == levels1[t] - 1,
        forall|t: u64, i: int| levels1.dom().contains(t) && !levels0.dom().contains(t) && 0 <= i < TABLE_ENTRIES
            ==> #[trigger] entry(mem1, t as int, i) == 0,
        forall|t2: u64, i2: int| levels0.dom().contains(t2) && 0 <= i2 < TABLE_ENTRIES
            && !(t2 == table && i2 == index) ==> #[trigger] entry(mem1, t2 as int, i2) == entry(mem0, t2 as int, i2),
        child_table(mem0, table as int, index, level) is Some
            ==> child_table(mem1, table as int, index, level) == child_table(mem0, table as int, index, level),
        child_table(mem0, table as int, index, level) is None && child_table(mem1, table as int, index, level) is Some
            ==> !levels0.dom().contains(child_table(mem1, table as int, index, level).unwrap()),
        level == 2 ==> entry(mem1, table as int, index) & PAGE_HUGE == 0,
        huge_on_path(mem1, root, v),
    ensures
        huge_on_path(mem0, root, v),
        translate_2m(mem1, root, v) == translate_2m(mem0, root, v),
{
    lemma_index_bounds(v);
    let v4 = spec_pml4_index(v);
    let v3 = spec_pdpt_index(v);
    let v2 = spec_pd_index(v);
    let y = child_table(mem1, root as int, v4, 4).unwrap();
    assert(levels1[y] == 3);
    let x = child_table(mem1, y as int, v3, 3).unwrap();
    assert(levels1[x] == 2);
    lemma_zero_absent();
    if !levels0.dom().contains(x) {
        assert(entry(mem1, x as int, v2) == 0);
    }
    if !levels0.dom().contains(y) {
        assert(entry(mem1, y as int, v3) == 0);
    }
    assert(levels0[y] == 3 && levels0[x] == 2);
    if root == table && v4 == index {
        if child_table(mem0, root as int, v4, 4) is None {
            assert(child_table(mem1, root as int, v4, 4) is Some);
        }
    } else {
        assert(entry(mem1, root as int, v4) == entry(mem0, root as int, v4));
    }
    if y == table && v3 == index {
    } else {
        assert(entry(mem1, y as int, v3) == entry(mem0, y as int, v3));
    }
    assert(walk_pd(mem0, root, v) == Some(x));
    if x == table && v2 == index {
        assert(entry(mem1, x as int, v2) & PAGE_HUGE == 0);
    } else {
        assert(entry(mem1, x as int, v2) == entry(mem0, x as int, v2));
    }
}

/// A page list that did not change grew trivially.
pub proof fn lemma_owned_grew_refl(o: Seq<u64>, before: PhysicalAllocator, after: PhysicalAllocator)
    ensures
        owned_grew(o, o, before, after),
{
    assert(o.subrange(0, o.len() as int) =~= o);
}

/// Growth of the owned pages composes.
pub proof fn lemma_owned_grew_trans(
    o0: Seq<u64>,
    o1: Seq<u64>,
    o2: Seq<u64>,
    a0: PhysicalAllocator,
    a1: PhysicalAllocator,
    a2: PhysicalAllocator,
)
    requires
        owned_grew(o1, o0, a0, a1),
        owned_grew(o2, o1, a1, a2),
        forall|a: int| #[trigger] a1.is_free(a) ==> a0.is_free(a),
        forall|a: int| #[trigger] a2.is_free(a) ==> a1.is_free(a),
    ensures
        owned_grew(o2, o0, a0, a2),
{
    assert(o2.subrange(0, o0.len() as int) =~= o0) by {
        assert forall|i: int| 0 <= i < o0.len() implies o2.subrange(0, o0.len() as int)[i] == o0[i] by {
            assert(o2.subrange(0, o1.len() as int)[i] == o1[i]);
            assert(o1.subrange(0, o0.len() as int)[i] == o0[i]);
        }
    }
    assert forall|i: int| o0.len() <= i < o2.len() implies (#[trigger] o2[i]) as int % PAGE_SIZE as int == 0
        && taken_page(o2[i], a0, a2) by {
        if i < o1.len() {
            assert(o2.subrange(0, o1.len() as int)[i] == o1[i]);
            assert(taken_page(o1[i], a0, a1));
            lemma_taken_later(o1[i], a0, a1, a2);
        } else {
            assert(taken_page(o2[i], a1, a2));
            lemma_taken_earlier(o2[i], a0, a1, a2);
        }
    }
}

/// A page taken by one step stays taken when free memory only shrinks.
pub proof fn lemma_taken_later(p: u64, a0: PhysicalAllocator, a1: PhysicalAllocator, a2: PhysicalAllocator)
    requires
        taken_page(p, a0, a1),
        forall|a: int| #[trigger] a2.is_free(a) ==> a1.is_free(a),
    ensures
        taken_page(p, a0, a2),
{
    assert forall|a: int| p <= a < p + PAGE_SIZE implies a0.is_free(a) && !a2.is_free(a) by {
        assert(a0.is_free(a) && !a1.is_free(a));
    }
}

/// A page free before a later step was free from the start.
pub proof fn lemma_taken_earlier(p: u64, a0: PhysicalAllocator, a1: PhysicalAllocator, a2: PhysicalAllocator)
    requires
        taken_page(p, a1, a2),
        forall|a: int| #[trigger] a1.is_free(a) ==> a0.is_free(a),
    ensures
        taken_page(p, a0, a2),
{
    assert forall|a: int| p <= a < p + PAGE_SIZE implies a0.is_free(a) && !a2.is_free(a) by {
        assert(a1.is_free(a) && !a2.is_free(a));
    }
}

/// Every table index of an address is below 512.
pub proof fn lemma_index_bounds(v: u64)
    ensures
        0 <= spec_pml4_index(v) < 512,
        0 <= spec_pdpt_index(v) < 512,
        0 <= spec_pd_index(v) < 512,
        0 <= spec_pt_index(v) < 512,
{
    assert((v >> 39u64) & 0x1ffu64 < 512 && (v >> 30u64) & 0x1ffu64 < 512 && (v >> 21u64) & 0x1ffu64 < 512
        && (v >> 12u64) & 0x1ffu64 < 512) by (bit_vector);
}

/// An all-zero entry is not present.
pub proof fn lemma_zero_absent()
    ensures
        0u64 & PAGE_PRESENT == 0,
{
    assert(0u64 & 1u64 == 0) by (bit_vector);
}

/// In a tree, two paths that reach the same page table come down through the
/// same entries.
proof fn lemma_same_leaf_same_slot(
    mem: PhysicalMemory,
    levels: Map<u64, int>,
    root: u64,
    pdpt: u64,
    pd: u64,
    pt: u64,
    a: u64,
    b: u64,
    virt: u64,
    v: u64,
)
    requires
        forall|t1: u64, i1: int, t2: u64, i2: int|
            levels.dom().contains(t1) && levels.dom().contains(t2) && 0 <= i1 < TABLE_ENTRIES && 0 <= i2 < TABLE_ENTRIES
            && (#[trigger] child_table(mem, t1 as int, i1, levels[t1])) is Some
            && child_table(mem, t1 as int, i1, levels[t1]) == #[trigger] child_table(mem, t2 as int, i2, levels[t2])
            ==> t1 == t2 && i1 == i2,
        levels.dom().contains(root) && levels[root] == 4,
        levels.dom().contains(pdpt) && levels[pdpt] == 3,
        levels.dom().contains(pd) && levels[pd] == 2,
        levels.dom().contains(a) && levels[a] == 3,
        levels.dom().contains(b) && levels[b] == 2,
        child_table(mem, root as int, spec_pml4_index(virt), 4) == Some(pdpt),
        child_table(mem, pdpt as int, spec_pdpt_index(virt), 3) == Some(pd),
        child_table(mem, pd as int, spec_pd_index(virt), 2) == Some(pt),
        child_table(mem, root as int, spec_pml4_index(v), 4) == Some(a),
        child_table(mem, a as int, spec_pdpt_index(v), 3) == Some(b),
        child_table(mem, b as int, spec_pd_index(v), 2) == Some(pt),
    ensures
        spec_pml4_index(v) == spec_pml4_index(virt),
        spec_pdpt_index(v) == spec_pdpt_index(virt),
        spec_pd_index(v) == spec_pd_index(virt),
{
    lemma_index_bounds(v);
    lemma_index_bounds(virt);
    assert(b == pd);
    assert(a == pdpt);
}

} // verus!
