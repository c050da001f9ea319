//! Fixed-capacity first-in, first-out ring buffer shared by the terminal byte
//! streams and the keyboard event queue.
use vstd::prelude::*;

verus! {

/// Ring buffer of `slots.len()` entries; the live entries start at
/// `read_index` and wrap around the end of `slots`.
pub struct RingQueue<T> {
    slots: Vec<T>,
    read_index: usize,
    len: usize,
}

impl<T: Copy> RingQueue<T> {
    /// Position in `slots` of the `i`-th live entry.
    pub closed spec fn slot_of(&self, i: int) -> int {
        if self.read_index + i < self.slots@.len() {
            self.read_index + i
        } else {
            self.read_index + i - self.slots@.len()
        }
    }

    /// The queued entries, oldest first.
    pub closed spec fn items(&self) -> Seq<T> {
        Seq::new(self.len as nat, |i: int| self.slots@[self.slot_of(i)])
    }

    /// Maximum number of entries the queue holds.
    pub closed spec fn spec_capacity(&self) -> nat {
        self.slots@.len()
    }

    pub closed spec fn wf(&self) -> bool {
        &&& self.slots@.len() > 0
        &&& self.read_index < self.slots@.len()
        &&& self.len <= self.slots@.len()
    }

    /// A well-formed queue never holds more than its capacity.
    pub proof fn lemma_within_capacity(&self)
        requires
            self.wf(),
        ensures
            self.items().len() <= self.spec_capacity(),
    {
    }

    /// Creates an empty queue able to hold `capacity` entries; `fill` only
    /// initialises the unused slots.
    pub fn new(capacity: usize, fill: T) -> (r: Self)
        requires
            capacity > 0,
        ensures
            r.wf(),
            r.items() == Seq::<T>::empty(),
            r.spec_capacity() == capacity,
    {
        let mut slots: Vec<T> = Vec::new();
        while slots.len() < capacity
            invariant
                slots@.len() <= capacity,
            decreases capacity - slots@.len(),
        {
            slots.push(fill);
        }
        let r = RingQueue { slots, read_index: 0, len: 0 };
        assert(r.items() =~= Seq::<T>::empty());
        r
    }

    /// Number of queued entries.
    pub fn len(&self) -> (r: usize)
        requires
            self.wf(),
        ensures
            r == self.items().len(),
    {
        self.len
    }

    /// Maximum number of entries.
    pub fn capacity(&self) -> (r: usize)
        ensures
            r == self.spec_capacity(),
    {
        self.slots.len()
    }

    /// Appends `item` at the back; refuses it when the queue is full.
    pub fn push(&mut self, item: T) -> (r: bool)
        requires
            old(self).wf(),
        ensures
            final(self).wf(),
            final(self).spec_capacity() == old(self).spec_capacity(),
            r == (old(self).items().len() < old(self).spec_capacity()),
            r ==> final(self).items() == old(self).items().push(item),
            !r ==> final(self).items() == old(self).items(),
    {
        let cap = self.slots.len();
        if self.len >= cap {
            return false;
        }
        let ghost old_items = self.items();
        let write_index = if self.len < cap - self.read_index {
            self.read_index + self.len
        } else {
            self.len - (cap - self.read_index)
        };
        self.slots.set(write_index, item);
        self.len = self.len + 1;
        proof {
            assert forall|i: int| 0 <= i < old_items.len() implies #[trigger] self.items()[i] == old_items[i] by {
                assert(self.slot_of(i) != write_index);
            }
            assert(self.slot_of(old_items.len() as int) == write_index);
            assert(self.items() =~= old_items.push(item));
        }
        true
    }

    /// Removes and returns the oldest entry.
    pub fn pop(&mut self) -> (r: Option<T>)
        requires
            old(self).wf(),
        ensures
            final(self).wf(),
            final(self).spec_capacity() == old(self).spec_capacity(),
            old(self).items().len() == 0 ==> r is None && final(self).items() == old(self).items(),
            old(self).items().len() > 0 ==> r == Some(old(self).items()[0])
                && final(self).items() == old(self).items().drop_first(),
    {
        if self.len == 0 {
            return None;
        }
        let ghost old_items = self.items();
        let cap = self.slots.len();
        let item = self.slots[self.read_index];
        self.read_index = if self.read_index < cap - 1 {
            self.read_index + 1
        } else {
            0
        };
        self.len = self.len - 1;
        proof {
            assert(old_items[0] == item);
            assert(self.items() =~= old_items.drop_first());
        }
        Some(item)
    }
}

/// A queue is first in, first out: a pop after a push gives the oldest
/// item, the pushed one when the queue was empty, and what stays queued
/// keeps its order with the pushed item last.
pub proof fn lemma_push_pop_round_trip<T>(items: Seq<T>, item: T)
    ensures
        items.push(item)[0] == if items.len() == 0 { item } else { items[0] },
        items.push(item).drop_first() == if items.len() == 0 { items } else { items.drop_first().push(item) },
{
    if items.len() == 0 {
        assert(items.push(item).drop_first() =~= items);
    } else {
        assert(items.push(item).drop_first() =~= items.drop_first().push(item));
    }
}

/// The queued items after pushing `items` one by one, each push having
/// room.
pub open spec fn after_pushes<T>(items0: Seq<T>, items: Seq<T>) -> Seq<T>
    decreases items.len(),
{
    if items.len() == 0 {
        items0
    } else {
        after_pushes(items0, items.drop_last()).push(items.last())
    }
}

/// Pushes append in order, so the pops that follow hand the queued items
/// back oldest first, then the pushed ones in the order they were pushed.
pub proof fn lemma_pushes_append<T>(items0: Seq<T>, items: Seq<T>)
    ensures
        after_pushes(items0, items) == items0 + items,
    decreases items.len(),
{
    if items.len() > 0 {
        lemma_pushes_append(items0, items.drop_last());
        assert(items0 + items.drop_last() + seq![items.last()] =~= items0 + items);
    }
}

} // verus!
