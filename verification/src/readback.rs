//! The slots of a readback: staging buffers of one capacity that results are
//! copied into and mapped from, each claimed by one pull at a time.
use vstd::prelude::*;

verus! {

/// The bookkeeping of a readback: how many staging slots it has, the bytes
/// each holds, and the slots free to claim, the next to be claimed last.
pub struct Readback {
    slots: usize,
    capacity: u64,
    free: Vec<usize>,
}

/// The slots `0..n` from the last to the first, so that slot zero is claimed
/// first.
pub open spec fn descending(n: nat) -> Seq<usize> {
    Seq::new(n, |i: int| (n - 1 - i) as usize)
}

impl Readback {
    /// The number of staging slots.
    pub closed spec fn slot_count(&self) -> nat {
        self.slots as nat
    }

    /// The bytes each slot holds.
    pub closed spec fn capacity_view(&self) -> nat {
        self.capacity as nat
    }

    /// The slots free to claim; the last is claimed next.
    pub closed spec fn free_view(&self) -> Seq<usize> {
        self.free@
    }

    /// Every free slot is one of the readback's slots.
    pub open spec fn wf(&self) -> bool {
        forall|i: int| 0 <= i < self.free_view().len() ==> (#[trigger] self.free_view()[i]) < self.slot_count()
    }

    /// A readback of `slots` slots of `bytes` each, all free.
    pub fn new(bytes: u64, slots: usize) -> (r: Readback)
        requires
            slots > 0,
            bytes > 0,
            bytes % 4 == 0,
        ensures
            r.wf(),
            r.slot_count() == slots,
            r.capacity_view() == bytes,
            r.free_view() == descending(slots as nat),
    {
        let mut free: Vec<usize> = Vec::new();
        let mut i: usize = slots;
        while i > 0
            invariant
                i <= slots,
                free@ == descending(slots as nat).subrange(0, (slots - i) as int),
            decreases i,
        {
            i -= 1;
            free.push(i);
            proof {
                assert(free@ =~= descending(slots as nat).subrange(0, (slots - i) as int));
            }
        }
        proof {
            assert(free@ =~= descending(slots as nat));
        }
        Readback { slots, capacity: bytes, free }
    }

    pub fn slots(&self) -> (r: usize)
        ensures
            r == self.slot_count(),
    {
        self.slots
    }

    pub fn capacity(&self) -> (r: u64)
        ensures
            r == self.capacity_view(),
    {
        self.capacity
    }

    /// Claims the slot freed last, or `None` when every slot is in flight.
    pub fn claim(&mut self) -> (r: Option<usize>)
        requires
            old(self).wf(),
        ensures
            final(self).wf(),
            final(self).slot_count() == old(self).slot_count(),
            final(self).capacity_view() == old(self).capacity_view(),
            old(self).free_view().len() == 0 ==> r is None && final(self).free_view() == old(self).free_view(),
            old(self).free_view().len() > 0 ==> r == Some(old(self).free_view().last())
                && final(self).free_view() == old(self).free_view().drop_last(),
            r matches Some(slot) ==> slot < final(self).slot_count(),
    {
        let r = self.free.pop();
        proof {
            assert forall|i: int| 0 <= i < self.free_view().len() implies (#[trigger] self.free_view()[i]) < self.slot_count() by {
                assert(self.free_view()[i] == old(self).free_view()[i]);
            }
        }
        r
    }

    /// Whether a pull of `bytes` may be mapped from a slot: a positive number
    /// of whole words that the slot holds.
    pub fn readable(&self, bytes: u64) -> (r: bool)
        ensures
            r == (bytes > 0 && bytes % 4 == 0 && bytes <= self.capacity_view()),
    {
        bytes > 0 && bytes % 4 == 0 && bytes <= self.capacity
    }

    /// Frees `slot` once its pull of `bytes` is mapped, to be claimed next.
    pub fn finish(&mut self, slot: usize, bytes: u64)
        requires
            old(self).wf(),
            slot < old(self).slot_count(),
            bytes > 0 && bytes % 4 == 0 && bytes <= old(self).capacity_view(),
        ensures
            final(self).wf(),
            final(self).slot_count() == old(self).slot_count(),
            final(self).capacity_view() == old(self).capacity_view(),
            final(self).free_view() == old(self).free_view().push(slot),
    {
        self.free.push(slot);
        proof {
            assert forall|i: int| 0 <= i < self.free_view().len() implies (#[trigger] self.free_view()[i]) < self.slot_count() by {
                if i < old(self).free_view().len() {
                    assert(self.free_view()[i] == old(self).free_view()[i]);
                }
            }
        }
    }
}

} // verus!
