//! Byte-addressed model of the physical memory window that the kernel hands
//! out pages from: page tables, user frames and kernel buffers all live here.
use vstd::prelude::*;

use crate::util::{spec_le_u64, le_u64_from_bytes, le_u64_to_bytes};

verus! {

/// A contiguous physical window `[base, base + len)` of byte-addressable RAM.
pub struct PhysicalMemory {
    base: u64,
    bytes: Vec<u8>,
}

impl PhysicalMemory {
    pub closed spec fn spec_base(&self) -> int {
        self.base as int
    }

    pub closed spec fn spec_size(&self) -> int {
        self.bytes@.len() as int
    }

    /// The byte stored at physical address `addr`.
    pub closed spec fn byte(&self, addr: int) -> u8 {
        self.bytes@[addr - self.base]
    }

    pub open spec fn wf(&self) -> bool {
        self.spec_base() + self.spec_size() <= u64::MAX
    }

    /// `[start, end)` lies inside the modelled window.
    pub open spec fn covers(&self, start: int, end: int) -> bool {
        self.spec_base() <= start <= end <= self.spec_base() + self.spec_size()
    }

    /// The bytes stored in `[start, start + len)`.
    pub open spec fn bytes_at(&self, start: int, len: int) -> Seq<u8> {
        Seq::new(len as nat, |i: int| self.byte(start + i))
    }

    /// Everything outside `[start, end)` is as in `other`.
    pub open spec fn same_outside(&self, other: &PhysicalMemory, start: int, end: int) -> bool {
        &&& self.spec_base() == other.spec_base()
        &&& self.spec_size() == other.spec_size()
        &&& forall|a: int|
            self.covers(a, a + 1) && !(start <= a < end) ==> #[trigger] self.byte(a) == other.byte(a)
    }

    /// Creates a zero-filled window of `size` bytes starting at `base`.
    pub fn new(base: u64, size: usize) -> (r: Self)
        requires
            base + size <= u64::MAX,
        ensures
            r.wf(),
            r.spec_base() == base,
            r.spec_size() == size,
            forall|a: int| r.covers(a, a + 1) ==> #[trigger] r.byte(a) == 0,
    {
        let mut bytes: Vec<u8> = Vec::new();
        let mut i: usize = 0;
        while i < size
            invariant
                i <= size,
                bytes@.len() == i,
                forall|k: int| 0 <= k < i ==> bytes@[k] == 0,
            decreases size - i,
        {
            bytes.push(0);
            i += 1;
        }
        PhysicalMemory { base, bytes }
    }

    pub fn base(&self) -> (r: u64)
        ensures
            r == self.spec_base(),
    {
        self.base
    }

    pub fn size(&self) -> (r: usize)
        ensures
            r == self.spec_size(),
    {
        self.bytes.len()
    }

    /// Whether `[start, start + len)` lies inside the window.
    pub fn contains_range(&self, start: u64, len: u64) -> (r: bool)
        requires
            self.wf(),
        ensures
            r == self.covers(start as int, start + len),
    {
        start >= self.base && start - self.base <= self.bytes.len() as u64
            && len <= self.bytes.len() as u64 - (start - self.base)
    }

    pub fn read_byte(&self, addr: u64) -> (r: u8)
        requires
            self.covers(addr as int, addr + 1),
        ensures
            r == self.byte(addr as int),
    {
        let _n = self.bytes.len();
        self.bytes[(addr - self.base) as usize]
    }

    pub fn write_byte(&mut self, addr: u64, value: u8)
        requires
            old(self).covers(addr as int, addr + 1),
        ensures
            final(self).wf() == old(self).wf(),
            final(self).byte(addr as int) == value,
            final(self).same_outside(&*old(self), addr as int, addr + 1),
    {
        let _n = self.bytes.len();
        let index = (addr - self.base) as usize;
        self.bytes.set(index, value);
    }

    /// Sets every byte of `[start, start + len)` to `value`.
    pub fn fill(&mut self, start: u64, len: u64, value: u8)
        requires
            old(self).covers(start as int, start + len),
        ensures
            final(self).wf() == old(self).wf(),
            forall|a: int| start <= a < start + len ==> #[trigger] final(self).byte(a) == value,
            final(self).same_outside(&*old(self), start as int, start + len),
    {
        let _n = self.bytes.len();
        let offset = (start - self.base) as usize;
        let mut i: usize = 0;
        while i < len as usize
            invariant
                offset == start - self.spec_base(),
                _n == self.bytes@.len(),
                old(self).covers(start as int, start + len),
                self.spec_base() == old(self).spec_base(),
                self.bytes@.len() == old(self).bytes@.len(),
                self.wf() == old(self).wf(),
                i <= len,
                forall|a: int| start <= a < start + i ==> #[trigger] self.byte(a) == value,
                self.same_outside(&*old(self), start as int, start + i),
            decreases len - i,
        {
            let ghost prev = *self;
            self.bytes.set(offset + i, value);
            assert forall|a: int| start <= a < start + i + 1 implies #[trigger] self.byte(a) == value by {
                if a < start + i {
                    assert(prev.byte(a) == value);
                }
            }
            assert forall|a: int| self.covers(a, a + 1) && !(start <= a < start + i + 1)
                implies #[trigger] self.byte(a) == old(self).byte(a) by {
                assert(prev.byte(a) == old(self).byte(a));
            }
            i += 1;
        }
    }

    /// Copies `data` to `[start, start + data.len())`.
    pub fn write_bytes(&mut self, start: u64, data: &[u8])
        requires
            old(self).covers(start as int, start + data@.len()),
        ensures
            final(self).wf() == old(self).wf(),
            final(self).bytes_at(start as int, data@.len() as int) == data@,
            final(self).same_outside(&*old(self), start as int, start + data@.len()),
    {
        let _n = self.bytes.len();
        let offset = (start - self.base) as usize;
        let mut i: usize = 0;
        while i < data.len()
            invariant
                offset == start - self.spec_base(),
                _n == self.bytes@.len(),
                old(self).covers(start as int, start + data@.len()),
                self.spec_base() == old(self).spec_base(),
                self.bytes@.len() == old(self).bytes@.len(),
                self.wf() == old(self).wf(),
                i <= data@.len(),
                forall|k: int| 0 <= k < i ==> #[trigger] self.byte(start + k) == data@[k],
                self.same_outside(&*old(self), start as int, start + i),
            decreases data@.len() - i,
        {
            let ghost prev = *self;
            self.bytes.set(offset + i, data[i]);
            assert forall|k: int| 0 <= k < i + 1 implies #[trigger] self.byte(start + k) == data@[k] by {
                if k < i {
                    assert(prev.byte(start + k) == data@[k]);
                }
            }
            assert forall|a: int| self.covers(a, a + 1) && !(start <= a < start + i + 1)
                implies #[trigger] self.byte(a) == old(self).byte(a) by {
                assert(prev.byte(a) == old(self).byte(a));
            }
            i += 1;
        }
        assert(self.bytes_at(start as int, data@.len() as int) =~= data@);
    }

    /// Borrows the bytes of `[start, start + len)`.
    pub fn read_bytes(&self, start: u64, len: usize) -> (r: &[u8])
        requires
            self.covers(start as int, start + len),
        ensures
            r@ == self.bytes_at(start as int, len as int),
    {
        let _n = self.bytes.len();
        let offset = (start - self.base) as usize;
        let r = vstd::slice::slice_subrange(self.bytes.as_slice(), offset, offset + len);
        assert(r@ =~= self.bytes_at(start as int, len as int));
        r
    }

    /// Borrows the bytes of `[start, start + len)` for writing: whatever the
    /// borrow holds when it ends is what the window then holds there.
    pub fn bytes_mut(&mut self, start: u64, len: usize) -> (r: &mut [u8])
        requires
            old(self).covers(start as int, start + len),
        ensures
            r@ == old(self).bytes_at(start as int, len as int),
            final(r)@.len() == len ==> {
                &&& final(self).wf() == old(self).wf()
                &&& final(self).bytes_at(start as int, len as int) == final(r)@
                &&& final(self).same_outside(&*old(self), start as int, start + len)
            },
    {
        let _n = self.bytes.len();
        let offset = (start - self.base) as usize;
        let all = self.bytes.as_mut_slice();
        let (_front, rest) = all.split_at_mut(offset);
        let (middle, _back) = rest.split_at_mut(len);
        assert(middle@ =~= old(self).bytes_at(start as int, len as int));
        middle
    }

    /// Reads the little-endian 64-bit word at `addr`.
    pub fn read_u64(&self, addr: u64) -> (r: u64)
        requires
            self.covers(addr as int, addr + 8),
        ensures
            r == spec_le_u64(self.bytes_at(addr as int, 8)),
    {
        let bytes = self.read_bytes(addr, 8);
        le_u64_from_bytes(bytes, 0)
    }

    /// Stores `value` little-endian at `addr`.
    pub fn write_u64(&mut self, addr: u64, value: u64)
        requires
            old(self).covers(addr as int, addr + 8),
        ensures
            final(self).wf() == old(self).wf(),
            spec_le_u64(final(self).bytes_at(addr as int, 8)) == value,
            final(self).same_outside(&*old(self), addr as int, addr + 8),
    {
        let bytes = le_u64_to_bytes(value);
        self.write_bytes(addr, bytes.as_slice());
    }
}

} // verus!
