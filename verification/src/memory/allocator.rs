//! Physical page allocator over a sorted list of free address ranges.
use vstd::prelude::*;

use super::phys::PhysicalMemory;
use super::types::{MemoryError, MAX_FREE_RANGES, PAGE_SIZE};

verus! {

/// One free physical range `[start, end)`.
#[derive(Clone, Copy, PartialEq, Eq, Structural)]
pub struct PhysicalRegion {
    pub start: u64,
    pub end: u64,
}

/// `region` can hand out `bytes` bytes from its start: it is not the
/// reserved null region and the request fits below its end.
pub open spec fn region_fits(region: PhysicalRegion, bytes: int) -> bool {
    region.start != 0 && region.start + bytes <= region.end
}

/// No free range of `alloc` can supply a page.
pub open spec fn no_free_page(alloc: PhysicalAllocator) -> bool {
    forall|i: int| 0 <= i < alloc.spec_regions().len() ==> !region_fits(#[trigger] alloc.spec_regions()[i], PAGE_SIZE as int)
}

/// Free address `a` lies in a range that can supply a page.
pub open spec fn usable_free(alloc: PhysicalAllocator, a: int) -> bool {
    exists|i: int| 0 <= i < alloc.spec_regions().len() && region_fits(#[trigger] alloc.spec_regions()[i], PAGE_SIZE as int)
        && alloc.spec_regions()[i].start <= a < alloc.spec_regions()[i].end
}

/// A range holding a free address of a stretch of free addresses holds the
/// whole stretch: ranges are separated by gaps.
proof fn lemma_range_holds_stretch(rs: Seq<PhysicalRegion>, lo: int, hi: int, j: int, a: int)
    requires
        regions_wf(rs),
        forall|b: int| lo <= b < hi ==> #[trigger] covered_by(rs, b),
        0 <= j < rs.len(),
        rs[j].start <= a < rs[j].end,
        lo <= a < hi,
    ensures
        rs[j].start <= lo,
        hi <= rs[j].end,
{
    if rs[j].start > lo {
        let b = rs[j].start - 1;
        assert(covered_by(rs, b));
        let k = choose|k: int| 0 <= k < rs.len() && #[trigger] rs[k].start <= b < rs[k].end;
        if k < j {
            assert(rs[k].end < rs[j].start);
        } else if k > j {
            assert(rs[j].end < rs[k].start);
        }
    }
    if rs[j].end < hi {
        let b = rs[j].end as int;
        assert(covered_by(rs, b));
        let k = choose|k: int| 0 <= k < rs.len() && #[trigger] rs[k].start <= b < rs[k].end;
        if k < j {
            assert(rs[k].end < rs[j].start);
        } else if k > j {
            assert(rs[j].end < rs[k].start);
        }
    }
}

/// When no free range of `after` can supply a page, no address that was
/// in a range of `before` able to supply one is still free: `after` has only
/// given up free memory.
pub proof fn lemma_dry_keeps_nothing_usable(before: PhysicalAllocator, after: PhysicalAllocator, a: int)
    requires
        before.wf(),
        after.wf(),
        after.page_granular(),
        forall|x: int| #[trigger] after.is_free(x) ==> before.is_free(x),
        no_free_page(after),
        usable_free(before, a),
    ensures
        !after.is_free(a),
{
    if after.is_free(a) {
        let rs = after.spec_regions();
        let j = choose|j: int| 0 <= j < rs.len() && #[trigger] rs[j].start <= a < rs[j].end;
        let p = a - a % PAGE_SIZE as int;
        assert forall|b: int| p <= b < p + PAGE_SIZE implies #[trigger] covered_by(rs, b) by {
            assert(after.is_free(b));
        }
        lemma_range_holds_stretch(rs, p, p + PAGE_SIZE, j, a);
        assert(!region_fits(rs[j], PAGE_SIZE as int));
        assert(rs[j].start == 0);
        let bs = before.spec_regions();
        assert forall|b: int| 0 <= b < a + 1 implies #[trigger] covered_by(bs, b) by {
            assert(covered_by(rs, b));
            assert(after.is_free(b));
        }
        let i = choose|i: int| 0 <= i < bs.len() && region_fits(#[trigger] bs[i], PAGE_SIZE as int)
            && bs[i].start <= a < bs[i].end;
        lemma_range_holds_stretch(bs, 0, a + 1, i, a);
    }
}

/// `region` overlaps or touches `[start, end]`.
pub open spec fn region_touches(region: PhysicalRegion, start: int, end: int) -> bool {
    region.end >= start && region.start <= end
}

/// `a` lies in one of `regions`.
pub open spec fn covered_by(regions: Seq<PhysicalRegion>, a: int) -> bool {
    exists|i: int| 0 <= i < regions.len() && #[trigger] regions[i].start <= a < regions[i].end
}

/// Regions are non-empty, sorted, and separated by gaps.
pub open spec fn regions_wf(regions: Seq<PhysicalRegion>) -> bool {
    &&& regions.len() <= MAX_FREE_RANGES
    &&& forall|i: int| 0 <= i < regions.len() ==> #[trigger] regions[i].start < regions[i].end
    &&& forall|i: int, j: int| 0 <= i < j < regions.len() ==> #[trigger] regions[i].end < #[trigger] regions[j].start
}

/// Index of the first region able to hand out `bytes` bytes.
pub open spec fn is_first_fit(regions: Seq<PhysicalRegion>, bytes: int, i: int) -> bool {
    &&& 0 <= i < regions.len()
    &&& region_fits(regions[i], bytes)
    &&& forall|j: int| 0 <= j < i ==> !region_fits(#[trigger] regions[j], bytes)
}

/// Removing a region removes exactly its addresses from the covered set.
proof fn lemma_remove_covered(before: Seq<PhysicalRegion>, index: int, a: int)
    requires
        0 <= index < before.len(),
    ensures
        covered_by(before, a) <==> (covered_by(before.remove(index), a)
            || before[index].start <= a < before[index].end),
{
    let after = before.remove(index);
    if covered_by(before, a) {
        let w = choose|w: int| 0 <= w < before.len() && #[trigger] before[w].start <= a < before[w].end;
        if w < index {
            assert(after[w] == before[w]);
        } else if w > index {
            assert(after[w - 1] == before[w]);
        }
    }
    if covered_by(after, a) {
        let w = choose|w: int| 0 <= w < after.len() && #[trigger] after[w].start <= a < after[w].end;
        if w < index {
            assert(after[w] == before[w]);
        } else {
            assert(after[w] == before[w + 1]);
        }
    }
}

/// Inserting a region adds exactly its addresses to the covered set.
proof fn lemma_insert_covered(before: Seq<PhysicalRegion>, at: int, r: PhysicalRegion, a: int)
    requires
        0 <= at <= before.len(),
    ensures
        covered_by(before.insert(at, r), a) <==> (covered_by(before, a) || r.start <= a < r.end),
{
    let n = before.insert(at, r);
    if covered_by(before, a) {
        let w = choose|w: int| 0 <= w < before.len() && #[trigger] before[w].start <= a < before[w].end;
        if w < at {
            assert(n[w] == before[w]);
        } else {
            assert(n[w + 1] == before[w]);
        }
    }
    if r.start <= a < r.end {
        assert(n[at].start <= a < n[at].end);
    }
    if covered_by(n, a) {
        let w = choose|w: int| 0 <= w < n.len() && #[trigger] n[w].start <= a < n[w].end;
        if w < at {
            assert(n[w] == before[w]);
        } else if w > at {
            assert(n[w] == before[w - 1]);
        }
    }
}

/// Inserting a region that lies strictly between its neighbours keeps the list well formed.
proof fn lemma_insert_wf(before: Seq<PhysicalRegion>, at: int, r: PhysicalRegion)
    requires
        regions_wf(before),
        before.len() < MAX_FREE_RANGES,
        0 <= at <= before.len(),
        r.start < r.end,
        forall|k: int| 0 <= k < at ==> #[trigger] before[k].end < r.start,
        forall|k: int| at <= k < before.len() ==> #[trigger] before[k].start > r.end,
    ensures
        regions_wf(before.insert(at, r)),
{
    let n = before.insert(at, r);
    assert forall|i: int| 0 <= i < n.len() implies #[trigger] n[i].start < n[i].end by {
        if i < at {
            assert(n[i] == before[i]);
        } else if i > at {
            assert(n[i] == before[i - 1]);
        }
    }
    assert forall|i: int, j: int| 0 <= i < j < n.len() implies #[trigger] n[i].end < #[trigger] n[j].start by {
        if j < at {
            assert(n[i] == before[i] && n[j] == before[j]);
        } else if j == at {
            assert(n[i] == before[i]);
        } else if i == at {
            assert(n[j] == before[j - 1]);
        } else if i < at {
            assert(n[i] == before[i] && n[j] == before[j - 1]);
            assert(before[i].end < r.start);
        } else {
            assert(n[i] == before[i - 1] && n[j] == before[j - 1]);
        }
    }
}

/// Removing a region keeps the list well formed.
proof fn lemma_remove_wf(before: Seq<PhysicalRegion>, index: int)
    requires
        regions_wf(before),
        0 <= index < before.len(),
    ensures
        regions_wf(before.remove(index)),
{
    let n = before.remove(index);
    assert forall|i: int| 0 <= i < n.len() implies #[trigger] n[i].start < n[i].end by {
        if i < index {
            assert(n[i] == before[i]);
        } else {
            assert(n[i] == before[i + 1]);
        }
    }
    assert forall|i: int, j: int| 0 <= i < j < n.len() implies #[trigger] n[i].end < #[trigger] n[j].start by {
        let bi = if i < index { i } else { i + 1 };
        let bj = if j < index { j } else { j + 1 };
        assert(n[i] == before[bi] && n[j] == before[bj]);
    }
}

/// Replacing one region changes the covered set only at that region.
proof fn lemma_update_covered(before: Seq<PhysicalRegion>, index: int, r: PhysicalRegion, a: int)
    requires
        regions_wf(before),
        0 <= index < before.len(),
    ensures
        covered_by(before.update(index, r), a) <==> ((covered_by(before, a)
            && !(before[index].start <= a < before[index].end)) || r.start <= a < r.end),
{
    let n = before.update(index, r);
    if covered_by(before, a) && !(before[index].start <= a < before[index].end) {
        let w = choose|w: int| 0 <= w < before.len() && #[trigger] before[w].start <= a < before[w].end;
        assert(w != index);
        assert(n[w] == before[w]);
    }
    if r.start <= a < r.end {
        assert(n[index].start <= a < n[index].end);
    }
    if covered_by(n, a) {
        let w = choose|w: int| 0 <= w < n.len() && #[trigger] n[w].start <= a < n[w].end;
        if w != index {
            assert(n[w] == before[w]);
            if before[index].start <= a < before[index].end {
                if w < index {
                    assert(before[w].end < before[index].start);
                } else {
                    assert(before[index].end < before[w].start);
                }
            }
        }
    }
}

/// Shrinking one region keeps the list well formed.
proof fn lemma_shrink_wf(before: Seq<PhysicalRegion>, index: int, r: PhysicalRegion)
    requires
        regions_wf(before),
        0 <= index < before.len(),
        before[index].start <= r.start < r.end <= before[index].end,
    ensures
        regions_wf(before.update(index, r)),
{
    let n = before.update(index, r);
    assert forall|i: int, j: int| 0 <= i < j < n.len() implies #[trigger] n[i].end < #[trigger] n[j].start by {
        assert(before[i].end < before[j].start);
    }
}

impl PhysicalRegion {
    pub fn empty() -> (r: Self)
        ensures
            r.start == 0 && r.end == 0,
    {
        PhysicalRegion { start: 0, end: 0 }
    }

    pub fn new(start: u64, end: u64) -> (r: Self)
        ensures
            r.start == start && r.end == end,
    {
        PhysicalRegion { start, end }
    }

    /// The null-based or exhausted region hands out nothing.
    pub fn is_empty(&self) -> (r: bool)
        ensures
            r == (self.start == 0 || self.start >= self.end),
    {
        self.start == 0 || self.start >= self.end
    }

    /// Takes one page from the front of the region.
    pub fn allocate_page(&mut self) -> (r: Option<u64>)
        ensures
            region_fits(*old(self), PAGE_SIZE as int) ==> r == Some(old(self).start)
                && final(self).start == old(self).start + PAGE_SIZE && final(self).end == old(self).end,
            !region_fits(*old(self), PAGE_SIZE as int) ==> r is None && *final(self) == *old(self),
    {
        if self.is_empty() {
            return None;
        }
        let page = self.start;
        let next = match self.start.checked_add(PAGE_SIZE as u64) {
            Some(next) => next,
            None => return None,
        };
        if next > self.end {
            return None;
        }
        self.start = next;
        Some(page)
    }

    /// Takes `count` contiguous pages from the front of the region.
    pub fn allocate_contiguous_pages(&mut self, count: usize) -> (r: Option<u64>)
        ensures
            count != 0 && region_fits(*old(self), count * PAGE_SIZE) ==> r == Some(old(self).start)
                && final(self).start == old(self).start + count * PAGE_SIZE && final(self).end == old(self).end,
            !(count != 0 && region_fits(*old(self), count * PAGE_SIZE)) ==> r is None && *final(self) == *old(self),
    {
        if count == 0 || self.is_empty() {
            return None;
        }
        let bytes = match (count as u64).checked_mul(PAGE_SIZE as u64) {
            Some(bytes) => bytes,
            None => return None,
        };
        let end = match self.start.checked_add(bytes) {
            Some(end) => end,
            None => return None,
        };
        if end > self.end {
            return None;
        }
        let start = self.start;
        self.start = end;
        Some(start)
    }
}

/// Free physical memory as a sorted list of disjoint, non-adjacent ranges.
pub struct PhysicalAllocator {
    regions: Vec<PhysicalRegion>,
}

impl PhysicalAllocator {
    pub closed spec fn spec_regions(&self) -> Seq<PhysicalRegion> {
        self.regions@
    }

    pub open spec fn wf(&self) -> bool {
        regions_wf(self.spec_regions())
    }

    /// Address `a` is free.
    pub open spec fn is_free(&self, a: int) -> bool {
        covered_by(self.spec_regions(), a)
    }

    /// Free memory consists of whole 4 KiB pages.
    pub open spec fn page_granular(&self) -> bool {
        forall|a: int, b: int| #[trigger] self.is_free(a) && a - a % PAGE_SIZE as int <= b < a - a % PAGE_SIZE as int + PAGE_SIZE
            ==> #[trigger] self.is_free(b)
    }

    /// In page-granular free memory every free range starts on a page boundary.
    pub proof fn lemma_region_starts_aligned(&self, i: int)
        requires
            self.wf(),
            self.page_granular(),
            0 <= i < self.spec_regions().len(),
        ensures
            self.spec_regions()[i].start as int % PAGE_SIZE as int == 0,
    {
        let regions = self.spec_regions();
        let start = regions[i].start as int;
        assert(self.is_free(start));
        if start % PAGE_SIZE as int != 0 {
            assert(self.is_free(start - 1));
            let j = choose|j: int| 0 <= j < regions.len() && #[trigger] regions[j].start <= start - 1 < regions[j].end;
            if j < i {
                assert(regions[j].end < regions[i].start);
            } else if j > i {
                assert(regions[i].end < regions[j].start);
            }
        }
    }

    /// Every free address lies in `[start, end)`.
    pub open spec fn free_within(&self, start: int, end: int) -> bool {
        forall|a: int| #[trigger] self.is_free(a) ==> start <= a < end
    }

    pub fn new() -> (r: Self)
        ensures
            r.wf(),
            r.spec_regions() == Seq::<PhysicalRegion>::empty(),
    {
        PhysicalAllocator { regions: Vec::new() }
    }

    /// Forgets every free range.
    pub fn reset(&mut self)
        ensures
            final(self).wf(),
            final(self).spec_regions() == Seq::<PhysicalRegion>::empty(),
    {
        self.regions = Vec::new();
    }

    pub fn region_count(&self) -> (r: usize)
        ensures
            r == self.spec_regions().len(),
    {
        self.regions.len()
    }

    /// The bounds of free range `index`.
    pub fn region(&self, index: usize) -> (r: (u64, u64))
        requires
            index < self.spec_regions().len(),
        ensures
            r == (self.spec_regions()[index as int].start, self.spec_regions()[index as int].end),
    {
        (self.regions[index].start, self.regions[index].end)
    }

    /// Adds `[start, end)` to the free memory.
    pub fn add_region(&mut self, start: u64, end: u64) -> (r: Result<(), MemoryError>)
        requires
            old(self).wf(),
            start < end ==> old(self).spec_regions().len() < MAX_FREE_RANGES
                || exists|i: int| 0 <= i < old(self).spec_regions().len()
                    && #[trigger] region_touches(old(self).spec_regions()[i], start as int, end as int),
        ensures
            r is Ok,
            final(self).wf(),
            forall|a: int| #[trigger] final(self).is_free(a) <==> old(self).is_free(a) || start <= a < end,
            final(self).spec_regions().len() <= old(self).spec_regions().len() + 1,
    {
        self.insert_range(start, end);
        Ok(())
    }

    /// Takes the first page that some free range can supply and zeroes it.
    pub fn allocate_page(&mut self, memory: &mut PhysicalMemory) -> (r: Result<u64, MemoryError>)
        requires
            old(self).wf(),
            forall|a: int| #[trigger] old(self).is_free(a) ==> old(memory).covers(a, a + 1),
        ensures
            final(self).wf(),
            match r {
                Ok(page) => {
                    &&& exists|i: int| is_first_fit(old(self).spec_regions(), PAGE_SIZE as int, i)
                        && old(self).spec_regions()[i].start == page
                    &&& forall|a: int| #[trigger] final(self).is_free(a) <==> old(self).is_free(a) && !(page <= a < page + PAGE_SIZE)
                    &&& forall|a: int| page <= a < page + PAGE_SIZE ==> old(self).is_free(a) && #[trigger] final(memory).byte(a) == 0
                    &&& final(memory).same_outside(&*old(memory), page as int, page + PAGE_SIZE)
                },
                Err(e) => {
                    &&& e == MemoryError::AllocatorExhausted
                    &&& forall|i: int| 0 <= i < old(self).spec_regions().len()
                        ==> !region_fits(#[trigger] old(self).spec_regions()[i], PAGE_SIZE as int)
                    &&& final(self).spec_regions() == old(self).spec_regions()
                    &&& *final(memory) == *old(memory)
                },
            },
    {
        self.allocate_contiguous_bytes(1, memory)
    }

    /// Takes `count` contiguous zeroed pages from the first free range that can supply them.
    pub fn allocate_contiguous_pages(&mut self, count: usize, memory: &mut PhysicalMemory) -> (r: Result<u64, MemoryError>)
        requires
            old(self).wf(),
            forall|a: int| #[trigger] old(self).is_free(a) ==> old(memory).covers(a, a + 1),
        ensures
            final(self).wf(),
            match r {
                Ok(start) => {
                    &&& count != 0
                    &&& exists|i: int| is_first_fit(old(self).spec_regions(), count * PAGE_SIZE, i)
                        && old(self).spec_regions()[i].start == start
                    &&& forall|a: int| #[trigger] final(self).is_free(a) <==> old(self).is_free(a) && !(start <= a < start + count * PAGE_SIZE)
                    &&& forall|a: int| start <= a < start + count * PAGE_SIZE ==> old(self).is_free(a) && #[trigger] final(memory).byte(a) == 0
                    &&& final(memory).same_outside(&*old(memory), start as int, start + count * PAGE_SIZE)
                },
                Err(e) => {
                    &&& e == MemoryError::AllocatorExhausted
                    &&& count != 0 ==> forall|i: int| 0 <= i < old(self).spec_regions().len()
                        ==> !region_fits(#[trigger] old(self).spec_regions()[i], count * PAGE_SIZE)
                    &&& final(self).spec_regions() == old(self).spec_regions()
                    &&& *final(memory) == *old(memory)
                },
            },
    {
        self.allocate_contiguous_bytes(count, memory)
    }

    fn allocate_contiguous_bytes(&mut self, count: usize, memory: &mut PhysicalMemory) -> (r: Result<u64, MemoryError>)
        requires
            old(self).wf(),
            forall|a: int| #[trigger] old(self).is_free(a) ==> old(memory).covers(a, a + 1),
        ensures
            final(self).wf(),
            match r {
                Ok(start) => {
                    &&& count != 0
                    &&& exists|i: int| is_first_fit(old(self).spec_regions(), count * PAGE_SIZE, i)
                        && old(self).spec_regions()[i].start == start
                    &&& forall|a: int| #[trigger] final(self).is_free(a) <==> old(self).is_free(a) && !(start <= a < start + count * PAGE_SIZE)
                    &&& forall|a: int| start <= a < start + count * PAGE_SIZE ==> old(self).is_free(a) && #[trigger] final(memory).byte(a) == 0
                    &&& final(memory).same_outside(&*old(memory), start as int, start + count * PAGE_SIZE)
                },
                Err(e) => {
                    &&& e == MemoryError::AllocatorExhausted
                    &&& count != 0 ==> forall|i: int| 0 <= i < old(self).spec_regions().len()
                        ==> !region_fits(#[trigger] old(self).spec_regions()[i], count * PAGE_SIZE)
                    &&& final(self).spec_regions() == old(self).spec_regions()
                    &&& *final(memory) == *old(memory)
                },
            },
    {
        let mut index: usize = 0;
        while index < self.regions.len()
            invariant
                self.regions@ == old(self).spec_regions(),
                regions_wf(self.regions@),
                *memory == *old(memory),
                forall|a: int| #[trigger] old(self).is_free(a) ==> old(memory).covers(a, a + 1),
                index <= self.regions@.len(),
                count != 0 ==> forall|j: int| 0 <= j < index ==> !region_fits(#[trigger] self.regions@[j], count * PAGE_SIZE),
            decreases self.regions@.len() - index,
        {
            let mut region = self.regions[index];
            let ghost before = self.regions@;
            if let Some(start) = region.allocate_contiguous_pages(count) {
                let bytes = (count as u64) * (PAGE_SIZE as u64);
                proof {
                    assert(is_first_fit(before, count * PAGE_SIZE, index as int));
                    assert forall|a: int| start <= a < start + bytes implies #[trigger] old(self).is_free(a) by {
                        assert(before[index as int].start <= a < before[index as int].end);
                    }
                    assert(old(self).is_free(start as int));
                    assert(old(self).is_free(start + bytes - 1));
                }
                if region.is_empty() {
                    self.regions.remove(index);
                    proof {
                        lemma_remove_wf(before, index as int);
                        assert forall|a: int| #[trigger] self.is_free(a) <==> old(self).is_free(a) && !(start <= a < start + bytes) by {
                            lemma_remove_covered(before, index as int, a);
                        }
                    }
                } else {
                    self.regions.set(index, region);
                    proof {
                        lemma_shrink_wf(before, index as int, region);
                        assert forall|a: int| #[trigger] self.is_free(a) <==> old(self).is_free(a) && !(start <= a < start + bytes) by {
                            lemma_update_covered(before, index as int, region, a);
                        }
                    }
                }
                memory.fill(start, bytes, 0);
                return Ok(start);
            }
            index += 1;
        }
        Err(MemoryError::AllocatorExhausted)
    }

    /// Whether `[start, end)` can join the free ranges: the list has room
    /// for one more range, or an existing range touches it.
    pub fn can_free(&self, start: u64, end: u64) -> (r: bool)
        ensures
            r == (self.spec_regions().len() < MAX_FREE_RANGES
                || exists|i: int| 0 <= i < self.spec_regions().len()
                    && #[trigger] region_touches(self.spec_regions()[i], start as int, end as int)),
    {
        if self.regions.len() < MAX_FREE_RANGES {
            return true;
        }
        let mut index: usize = 0;
        while index < self.regions.len()
            invariant
                index <= self.regions@.len(),
                forall|i: int| 0 <= i < index ==> !#[trigger] region_touches(self.regions@[i], start as int, end as int),
            decreases self.regions@.len() - index,
        {
            let region = self.regions[index];
            if region.end >= start && region.start <= end {
                proof {
                    assert(region_touches(self.regions@[index as int], start as int, end as int));
                }
                return true;
            }
            index += 1;
        }
        false
    }

    /// Returns `count` pages starting at `start` to the free memory.
    pub fn free_contiguous_pages(&mut self, start: u64, count: usize)
        requires
            old(self).wf(),
            start + count * PAGE_SIZE <= u64::MAX,
            count != 0 ==> old(self).spec_regions().len() < MAX_FREE_RANGES
                || exists|i: int| 0 <= i < old(self).spec_regions().len()
                    && #[trigger] region_touches(old(self).spec_regions()[i], start as int, start + count * PAGE_SIZE),
        ensures
            final(self).wf(),
            forall|a: int| #[trigger] final(self).is_free(a) <==> old(self).is_free(a) || start <= a < start + count * PAGE_SIZE,
            final(self).spec_regions().len() <= old(self).spec_regions().len() + 1,
    {
        if count == 0 {
            return;
        }
        let bytes = (count as u64) * PAGE_SIZE as u64;
        self.insert_range(start, start + bytes);
    }

    /// Withdraws `[start, end)` from the free memory, splitting a range when needed.
    #[verifier::rlimit(30)]
    pub fn reserve_range(&mut self, start: u64, end: u64)
        requires
            old(self).wf(),
            (exists|i: int| 0 <= i < old(self).spec_regions().len()
                && #[trigger] old(self).spec_regions()[i].start < start && end < old(self).spec_regions()[i].end)
                ==> old(self).spec_regions().len() < MAX_FREE_RANGES,
        ensures
            final(self).wf(),
            forall|a: int| #[trigger] final(self).is_free(a) <==> old(self).is_free(a) && !(start <= a < end),
    {
        if start >= end {
            return;
        }
        let mut index: usize = 0;
        while index < self.regions.len()
            invariant
                start < end,
                regions_wf(self.regions@),
                index <= self.regions@.len(),
                forall|k: int| 0 <= k < index ==> #[trigger] self.regions@[k].end <= start || self.regions@[k].start >= end,
                forall|a: int| !(start <= a < end) ==> (#[trigger] covered_by(self.regions@, a) <==> old(self).is_free(a)),
                forall|k: int| index <= k < self.regions@.len() && #[trigger] self.regions@[k].start < start
                    && end < self.regions@[k].end ==> self.regions@.len() < MAX_FREE_RANGES,
            decreases self.regions@.len() - index,
        {
            let region = self.regions[index];
            let ghost before = self.regions@;
            if region.end <= start || region.start >= end {
                index += 1;
                continue;
            }
            if start <= region.start && end >= region.end {
                self.regions.remove(index);
                proof {
                    lemma_remove_wf(before, index as int);
                    assert forall|a: int| !(start <= a < end) implies (#[trigger] covered_by(self.regions@, a) <==> old(self).is_free(a)) by {
                        lemma_remove_covered(before, index as int, a);
                    }
                    assert forall|k: int| 0 <= k < index implies #[trigger] self.regions@[k].end <= start || self.regions@[k].start >= end by {
                        assert(self.regions@[k] == before[k]);
                    }
                    assert forall|k: int| index <= k < self.regions@.len() && #[trigger] self.regions@[k].start < start
                        && end < self.regions@[k].end implies self.regions@.len() < MAX_FREE_RANGES by {
                        assert(self.regions@[k] == before[k + 1]);
                    }
                }
                continue;
            }
            if start <= region.start {
                let trimmed = PhysicalRegion::new(end, region.end);
                self.regions.set(index, trimmed);
                proof {
                    lemma_shrink_wf(before, index as int, trimmed);
                    assert forall|a: int| !(start <= a < end) implies (#[trigger] covered_by(self.regions@, a) <==> old(self).is_free(a)) by {
                        lemma_update_covered(before, index as int, trimmed, a);
                        assert(covered_by(before, a) <==> old(self).is_free(a));
                    }
                }
                index += 1;
                continue;
            }
            if end >= region.end {
                let trimmed = PhysicalRegion::new(region.start, start);
                self.regions.set(index, trimmed);
                proof {
                    lemma_shrink_wf(before, index as int, trimmed);
                    assert forall|a: int| !(start <= a < end) implies (#[trigger] covered_by(self.regions@, a) <==> old(self).is_free(a)) by {
                        lemma_update_covered(before, index as int, trimmed, a);
                        assert(covered_by(before, a) <==> old(self).is_free(a));
                    }
                }
                index += 1;
                continue;
            }
            let left = PhysicalRegion::new(region.start, start);
            let right = PhysicalRegion::new(end, region.end);
            self.regions.set(index, left);
            let ghost middle = self.regions@;
            proof {
                lemma_shrink_wf(before, index as int, left);
            }
            self.regions.insert(index + 1, right);
            proof {
                assert forall|k: int| index + 1 <= k < middle.len() implies #[trigger] middle[k].start > right.end by {
                    assert(before[index as int].end < before[k].start);
                }
                assert forall|k: int| 0 <= k < index + 1 implies #[trigger] middle[k].end < right.start by {
                    if k < index {
                        assert(before[k].end < before[index as int].start);
                    }
                }
                lemma_insert_wf(middle, index + 1, right);
                assert forall|a: int| !(start <= a < end) implies (#[trigger] covered_by(self.regions@, a) <==> old(self).is_free(a)) by {
                    lemma_update_covered(before, index as int, left, a);
                    lemma_insert_covered(middle, index + 1, right, a);
                    assert(covered_by(before, a) <==> old(self).is_free(a));
                }
                assert forall|k: int| 0 <= k < index + 2 implies #[trigger] self.regions@[k].end <= start || self.regions@[k].start >= end by {
                    if k < index {
                        assert(self.regions@[k] == before[k]);
                    }
                }
                assert forall|k: int| index + 2 <= k < self.regions@.len() && #[trigger] self.regions@[k].start < start
                    && end < self.regions@[k].end implies self.regions@.len() < MAX_FREE_RANGES by {
                    assert(self.regions@[k] == before[k - 1]);
                    assert(before[index as int].end < before[k - 1].start);
                }
            }
            index += 2;
        }
        proof {
            assert forall|a: int| #[trigger] self.is_free(a) <==> old(self).is_free(a) && !(start <= a < end) by {
                if start <= a < end && covered_by(self.regions@, a) {
                    let w = choose|w: int| 0 <= w < self.regions@.len() && #[trigger] self.regions@[w].start <= a < self.regions@[w].end;
                    assert(self.regions@[w].end <= start || self.regions@[w].start >= end);
                }
            }
        }
    }

    fn remove_region(&mut self, index: usize)
        requires
            index < old(self).spec_regions().len(),
        ensures
            final(self).spec_regions() == old(self).spec_regions().remove(index as int),
    {
        self.regions.remove(index);
    }

    /// Merges `[start, end)` into the free ranges, coalescing neighbours.
    #[verifier::rlimit(30)]
    fn insert_range(&mut self, start: u64, end: u64)
        requires
            old(self).wf(),
            start < end ==> old(self).spec_regions().len() < MAX_FREE_RANGES
                || exists|i: int| 0 <= i < old(self).spec_regions().len()
                    && #[trigger] region_touches(old(self).spec_regions()[i], start as int, end as int),
        ensures
            final(self).wf(),
            forall|a: int| #[trigger] final(self).is_free(a) <==> old(self).is_free(a) || start <= a < end,
            final(self).spec_regions().len() <= old(self).spec_regions().len() + 1,
    {
        if start >= end {
            return;
        }
        let mut merged_start = start;
        let mut merged_end = end;
        let mut index: usize = 0;
        let ghost mut merged_any = false;
        while index < self.regions.len()
            invariant
                regions_wf(self.regions@),
                merged_start <= start < end <= merged_end,
                index <= self.regions@.len(),
                forall|k: int| 0 <= k < index ==> !#[trigger] region_touches(self.regions@[k], merged_start as int, merged_end as int),
                forall|k: int| 0 <= k < index ==> #[trigger] self.regions@[k].end < merged_start
                    || self.regions@[k].start > merged_end,
                forall|a: int| (#[trigger] covered_by(self.regions@, a) || merged_start <= a < merged_end)
                    <==> (old(self).is_free(a) || start <= a < end),
                merged_any ==> self.regions@.len() < old(self).spec_regions().len(),
                !merged_any ==> self.regions@ == old(self).spec_regions(),
                self.regions@.len() <= old(self).spec_regions().len(),
            decreases self.regions@.len() - index,
        {
            let region = self.regions[index];
            if region.end < merged_start || region.start > merged_end {
                index += 1;
                continue;
            }
            let ghost before = self.regions@;
            let ghost old_ms = merged_start;
            let ghost old_me = merged_end;
            if region.start < merged_start {
                merged_start = region.start;
            }
            if region.end > merged_end {
                merged_end = region.end;
            }
            self.regions.remove(index);
            proof {
                merged_any = true;
                lemma_remove_wf(before, index as int);
                assert forall|k: int| 0 <= k < index implies #[trigger] self.regions@[k].end < merged_start
                    || self.regions@[k].start > merged_end by {
                    assert(before[k] == self.regions@[k]);
                    assert(before[k].end < before[index as int].start);
                    if before[k].start > old_me {
                        assert(before[index as int].start > old_me);
                        assert(false);
                    }
                }
                assert forall|k: int| 0 <= k < index implies !#[trigger] region_touches(self.regions@[k], merged_start as int, merged_end as int) by {
                    assert(self.regions@[k].end < merged_start || self.regions@[k].start > merged_end);
                }
                assert forall|a: int| (#[trigger] covered_by(self.regions@, a) || merged_start <= a < merged_end)
                    <==> (old(self).is_free(a) || start <= a < end) by {
                    lemma_remove_covered(before, index as int, a);
                    if merged_start <= a < merged_end && !(old_ms <= a < old_me) {
                        assert(before[index as int].start <= a < before[index as int].end);
                    }
                    if before[index as int].start <= a < before[index as int].end {
                        assert(merged_start <= a < merged_end);
                    }
                    assert(covered_by(before, a) || old_ms <= a < old_me <==> old(self).is_free(a) || start <= a < end);
                }
            }
        }
        proof {
            if !merged_any {
                if exists|i: int| 0 <= i < old(self).spec_regions().len()
                    && #[trigger] region_touches(old(self).spec_regions()[i], start as int, end as int) {
                    let i = choose|i: int| 0 <= i < old(self).spec_regions().len()
                        && #[trigger] region_touches(old(self).spec_regions()[i], start as int, end as int);
                    assert(!region_touches(self.regions@[i], merged_start as int, merged_end as int));
                }
            }
        }
        let mut insert_at: usize = 0;
        while insert_at < self.regions.len() && self.regions[insert_at].start < merged_start
            invariant
                insert_at <= self.regions@.len(),
                forall|k: int| 0 <= k < insert_at ==> #[trigger] self.regions@[k].start < merged_start,
                regions_wf(self.regions@),
                merged_start < merged_end,
                forall|k: int| 0 <= k < self.regions@.len() ==> #[trigger] self.regions@[k].end < merged_start
                    || self.regions@[k].start > merged_end,
                forall|a: int| (#[trigger] covered_by(self.regions@, a) || merged_start <= a < merged_end)
                    <==> (old(self).is_free(a) || start <= a < end),
                self.regions@.len() < MAX_FREE_RANGES,
                self.regions@.len() <= old(self).spec_regions().len(),
            decreases self.regions@.len() - insert_at,
        {
            insert_at += 1;
        }
        let ghost before = self.regions@;
        let merged = PhysicalRegion::new(merged_start, merged_end);
        self.regions.insert(insert_at, merged);
        proof {
            assert forall|k: int| insert_at <= k < before.len() implies #[trigger] before[k].start > merged_end by {
                if k == insert_at {
                } else {
                    assert(before[insert_at as int].end < before[k].start);
                    assert(before[insert_at as int].start <= before[insert_at as int].end);
                }
            }
            lemma_insert_wf(before, insert_at as int, merged);
            assert forall|a: int| #[trigger] final(self).is_free(a) <==> old(self).is_free(a) || start <= a < end by {
                lemma_insert_covered(before, insert_at as int, merged, a);
            }
        }
    }
}

} // verus!
