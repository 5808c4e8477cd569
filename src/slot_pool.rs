//! The fixed pool of sample slots of one publisher. Each slot carries a
//! reference count: one for the publisher while it writes, one per queue
//! occurrence and one per read loan. Free slots sit on a free list.
use vstd::prelude::*;
use vstd::set_lib::*;

verus! {

/// Why a slot operation failed.
#[derive(Debug, Clone, Copy, PartialEq, Eq, Structural)]
pub enum SlotPoolError {
    /// Every slot is in use.
    ExceedsMaxLoanedSamples,
    /// The slot does not exist, is free, or its count would overflow: the
    /// reference counting is broken.
    Corrupted,
}

/// The abstract state of a pool.
pub struct PoolState {
    pub refcounts: Seq<u32>,
    pub free: Seq<usize>,
}

/// The pool's invariant: the free list holds each free slot exactly once and
/// nothing else.
pub open spec fn pool_wf(v: PoolState) -> bool {
    &&& v.refcounts.len() <= usize::MAX
    &&& v.free.no_duplicates()
    &&& forall|k: int|
        0 <= k < v.free.len() ==> (#[trigger] v.free[k] as int) < v.refcounts.len()
            && v.refcounts[v.free[k] as int] == 0
    &&& forall|i: int| 0 <= i < v.refcounts.len() && v.refcounts[i] == 0 ==> v.free.contains(i as usize)
}

/// The slots in use: loaned for writing, queued or loaned for reading.
pub open spec fn in_use(v: PoolState) -> Set<int> {
    Set::new(|i: int| 0 <= i < v.refcounts.len() && v.refcounts[i] > 0)
}

/// The free slots.
pub open spec fn free_slots(v: PoolState) -> Set<int> {
    Set::new(|i: int| 0 <= i < v.refcounts.len() && v.refcounts[i] == 0)
}

/// Slot accounting: in a well-formed pool every slot is either on the free
/// list or in use, never both, so the free list and the slots in use add up
/// to the pool's capacity.
pub proof fn lemma_slots_accounted(v: PoolState)
    requires
        pool_wf(v),
    ensures
        v.free.len() + in_use(v).len() == v.refcounts.len(),
        forall|i: int| 0 <= i < v.refcounts.len() ==> (v.free.contains(i as usize) <==> !in_use(v).contains(i)),
{
    let n = v.refcounts.len() as int;
    let range = set_int_range(0, n);
    lemma_int_range(0, n);
    let a = free_slots(v);
    let b = in_use(v);
    assert(a.subset_of(range));
    assert(b.subset_of(range));
    lemma_len_subset(a, range);
    lemma_len_subset(b, range);
    assert(a + b =~= range);
    assert(a.disjoint(b));
    lemma_set_disjoint_lens(a, b);
    let fi = v.free.map_values(|x: usize| x as int);
    assert forall|p: int, q: int| 0 <= p < fi.len() && 0 <= q < fi.len() && p != q implies fi[p]
        != fi[q] by {
        assert(v.free[p] != v.free[q]);
    }
    assert(fi.no_duplicates());
    assert forall|i: int| a.contains(i) implies fi.to_set().contains(i) by {
        assert(v.free.contains(i as usize));
        let k = choose|k: int| 0 <= k < v.free.len() && v.free[k] == i as usize;
        assert(fi[k] == i);
    }
    assert forall|i: int| fi.to_set().contains(i) implies a.contains(i) by {
        let k = choose|k: int| 0 <= k < fi.len() && fi[k] == i;
        assert(v.free[k] as int == i);
    }
    assert(fi.to_set() =~= a);
    fi.unique_seq_to_set();
    assert forall|i: int| 0 <= i < v.refcounts.len() implies (v.free.contains(i as usize) <==> !in_use(v).contains(i)) by {
        if v.free.contains(i as usize) {
            let k = choose|k: int| 0 <= k < v.free.len() && v.free[k] == i as usize;
            assert(v.refcounts[v.free[k] as int] == 0);
        }
    }
}

/// A pool of reference-counted sample slots.
pub struct SlotPool {
    refcounts: Vec<u32>,
    free: Vec<usize>,
}

impl View for SlotPool {
    type V = PoolState;

    closed spec fn view(&self) -> PoolState {
        PoolState { refcounts: self.refcounts@, free: self.free@ }
    }
}

impl SlotPool {
    /// The pool's invariant.
    pub open spec fn wf(&self) -> bool {
        pool_wf(self@)
    }

    /// A pool of `capacity` free slots; slot `0` is handed out last.
    pub fn new(capacity: usize) -> (r: Self)
        ensures
            r.wf(),
            r@.refcounts.len() == capacity,
            forall|i: int| 0 <= i < capacity ==> r@.refcounts[i] == 0,
            r@.free.len() == capacity,
    {
        let mut refcounts: Vec<u32> = Vec::new();
        let mut free: Vec<usize> = Vec::new();
        let mut i: usize = 0;
        while i < capacity
            invariant
                i <= capacity,
                refcounts@.len() == i,
                free@.len() == i,
                forall|k: int| 0 <= k < i ==> refcounts@[k] == 0,
                forall|k: int| 0 <= k < i ==> #[trigger] free@[k] == (i - 1 - k) as usize,
            decreases capacity - i,
        {
            refcounts.push(0);
            free.insert(0, i);
            i = i + 1;
        }
        let r = SlotPool { refcounts, free };
        assert forall|k: int| 0 <= k < capacity implies #[trigger] r@.free.contains(k as usize) by {
            assert(r@.free[capacity - 1 - k] == k as usize);
        }
        r
    }

    /// Takes a free slot for writing; its count becomes one.
    pub fn loan(&mut self) -> (r: Result<usize, SlotPoolError>)
        requires
            old(self).wf(),
        ensures
            final(self).wf(),
            old(self)@.free.len() == 0 ==> r == Err::<usize, SlotPoolError>(
                SlotPoolError::ExceedsMaxLoanedSamples,
            ) && final(self)@ == old(self)@,
            old(self)@.free.len() > 0 ==> r == Ok::<usize, SlotPoolError>(old(self)@.free.last())
                && final(self)@.free == old(self)@.free.drop_last()
                && final(self)@.refcounts == old(self)@.refcounts.update(
                old(self)@.free.last() as int,
                1,
            ),
    {
        let ghost v = self@;
        match self.free.pop() {
            None => Err(SlotPoolError::ExceedsMaxLoanedSamples),
            Some(slot) => {
                self.refcounts.set(slot, 1);
                proof {
                    assert(v.free.drop_last() =~= self@.free);
                    assert forall|k: int| 0 <= k < self@.free.len() implies self@.free[k] != slot by {
                        assert(v.free[k] == self@.free[k]);
                        assert(v.free[v.free.len() - 1] == slot);
                    }
                    assert forall|i: int|
                        0 <= i < self@.refcounts.len() && self@.refcounts[i] == 0 implies self@.free.contains(
                        i as usize,
                    ) by {
                        assert(v.free.contains(i as usize));
                        let k = choose|k: int| 0 <= k < v.free.len() && v.free[k] == i as usize;
                        assert(i != slot as int);
                        assert(k != v.free.len() - 1);
                        assert(self@.free[k] == i as usize);
                    }
                }
                Ok(slot)
            },
        }
    }

    /// Adds one reference to a slot in use.
    pub fn borrow(&mut self, slot: usize) -> (r: Result<(), SlotPoolError>)
        requires
            old(self).wf(),
        ensures
            final(self).wf(),
            ({
                let ok = slot < old(self)@.refcounts.len() && 0 < old(self)@.refcounts[slot as int]
                    < u32::MAX;
                &&& ok ==> r is Ok && final(self)@.free == old(self)@.free
                    && final(self)@.refcounts == old(self)@.refcounts.update(
                    slot as int,
                    (old(self)@.refcounts[slot as int] + 1) as u32,
                )
                &&& !ok ==> r == Err::<(), SlotPoolError>(SlotPoolError::Corrupted) && final(self)@
                    == old(self)@
            }),
    {
        if slot >= self.refcounts.len() {
            return Err(SlotPoolError::Corrupted);
        }
        let count = self.refcounts[slot];
        if count == 0 || count == u32::MAX {
            return Err(SlotPoolError::Corrupted);
        }
        let ghost v = self@;
        self.refcounts.set(slot, count + 1);
        proof {
            assert forall|i: int|
                0 <= i < self@.refcounts.len() && self@.refcounts[i] == 0 implies self@.free.contains(
                i as usize,
            ) by {
                assert(v.refcounts[i] == 0);
            }
        }
        Ok(())
    }

    /// Drops one reference to a slot; when none is left the slot goes back
    /// to the free list and `true` is returned.
    pub fn release(&mut self, slot: usize) -> (r: Result<bool, SlotPoolError>)
        requires
            old(self).wf(),
        ensures
            final(self).wf(),
            ({
                let ok = slot < old(self)@.refcounts.len() && old(self)@.refcounts[slot as int] > 0;
                let last = ok && old(self)@.refcounts[slot as int] == 1;
                &&& ok ==> r == Ok::<bool, SlotPoolError>(last) && final(self)@.refcounts
                    == old(self)@.refcounts.update(
                    slot as int,
                    (old(self)@.refcounts[slot as int] - 1) as u32,
                )
                &&& ok && last ==> final(self)@.free == old(self)@.free.push(slot)
                &&& ok && !last ==> final(self)@.free == old(self)@.free
                &&& !ok ==> r == Err::<bool, SlotPoolError>(SlotPoolError::Corrupted) && final(self)@
                    == old(self)@
            }),
    {
        if slot >= self.refcounts.len() {
            return Err(SlotPoolError::Corrupted);
        }
        let count = self.refcounts[slot];
        if count == 0 {
            return Err(SlotPoolError::Corrupted);
        }
        let ghost v = self@;
        self.refcounts.set(slot, count - 1);
        if count == 1 {
            proof {
                assert(!v.free.contains(slot)) by {
                    if v.free.contains(slot) {
                        let k = choose|k: int| 0 <= k < v.free.len() && v.free[k] == slot;
                        assert(v.refcounts[v.free[k] as int] == 0);
                    }
                }
            }
            self.free.push(slot);
            proof {
                assert forall|p: int, q: int|
                    0 <= p < self@.free.len() && 0 <= q < self@.free.len() && p != q implies self@.free[p]
                    != self@.free[q] by {
                    if p < v.free.len() && q < v.free.len() {
                        assert(v.free[p] != v.free[q]);
                    } else if p < v.free.len() {
                        assert(v.free.contains(v.free[p]));
                    } else {
                        assert(v.free.contains(v.free[q]));
                    }
                }
                assert forall|i: int|
                    0 <= i < self@.refcounts.len() && self@.refcounts[i] == 0 implies self@.free.contains(
                    i as usize,
                ) by {
                    if i == slot {
                        assert(self@.free[v.free.len() as int] == slot);
                    } else {
                        let k = choose|k: int| 0 <= k < v.free.len() && v.free[k] == i as usize;
                        assert(self@.free[k] == i as usize);
                    }
                }
            }
            Ok(true)
        } else {
            proof {
                assert forall|i: int|
                    0 <= i < self@.refcounts.len() && self@.refcounts[i] == 0 implies self@.free.contains(
                    i as usize,
                ) by {
                    assert(v.refcounts[i] == 0);
                }
            }
            Ok(false)
        }
    }

    /// The reference count of `slot`.
    pub fn refcount(&self, slot: usize) -> (r: u32)
        requires
            slot < self@.refcounts.len(),
        ensures
            r == self@.refcounts[slot as int],
    {
        self.refcounts[slot]
    }

    /// Number of free slots.
    pub fn free_len(&self) -> (r: usize)
        ensures
            r == self@.free.len(),
    {
        self.free.len()
    }

    /// Number of slots.
    pub fn capacity(&self) -> (r: usize)
        ensures
            r == self@.refcounts.len(),
    {
        self.refcounts.len()
    }
}

} // verus!
