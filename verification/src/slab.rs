//! Recycling of stack-slot indices.
use vstd::prelude::*;

verus! {

/// An arena of slot indices. It hands out the lowest index that is not in
/// use, so an index that was given back is used again before the arena grows.
/// It stores no values: it only says which indices are taken.
pub struct Slab {
    /// `live[i]` tells whether index `i` is handed out.
    live: Vec<bool>,
    /// The indices below `live.len()` that are not handed out, in strictly
    /// decreasing order, so that the lowest one is the last.
    free: Vec<usize>,
}

impl View for Slab {
    type V = Set<nat>;

    /// The indices that are handed out.
    closed spec fn view(&self) -> Set<nat> {
        Set::new(|i: nat| i < self.live.len() && self.live[i as int])
    }
}

impl Slab {
    /// The number of indices that the arena has ever reached: every index that
    /// is handed out lies below it.
    pub closed spec fn capacity(&self) -> nat {
        self.live.len() as nat
    }

    /// The representation is consistent.
    pub closed spec fn wf(&self) -> bool {
        &&& forall|i: int|
            0 <= i < self.free.len() ==> (#[trigger] self.free[i]) < self.live.len()
                && !self.live[self.free[i] as int]
        &&& forall|j: int|
            0 <= j < self.live.len() && !(#[trigger] self.live[j]) ==> self.free@.contains(
                j as usize,
            )
        &&& forall|i: int, k: int|
            0 <= i < k < self.free.len() ==> (#[trigger] self.free[i]) > (#[trigger] self.free[k])
    }

    /// Every index that is handed out lies below the capacity.
    pub proof fn lemma_live_below_capacity(&self, slot: nat)
        requires
            self@.contains(slot),
        ensures
            slot < self.capacity(),
    {
    }

    /// An arena with nothing handed out.
    pub fn new() -> (slab: Slab)
        ensures
            slab.wf(),
            slab@ == Set::<nat>::empty(),
            slab.capacity() == 0,
    {
        let slab = Slab { live: Vec::new(), free: Vec::new() };
        assert(slab@ =~= Set::<nat>::empty());
        slab
    }

    /// Hands out the lowest index that is not in use.
    pub fn allocate(&mut self) -> (slot: usize)
        requires
            old(self).wf(),
        ensures
            final(self).wf(),
            !old(self)@.contains(slot as nat),
            forall|j: nat| j < slot ==> old(self)@.contains(j),
            final(self)@ == old(self)@.insert(slot as nat),
            slot <= old(self).capacity(),
            final(self).capacity() == if slot == old(self).capacity() {
                old(self).capacity() + 1
            } else {
                old(self).capacity()
            },
    {
        if self.free.len() > 0 {
            let ghost before = self.free@;
            let slot: usize = self.free.pop().unwrap();
            assert(before[before.len() - 1] == slot);
            assert forall|j: nat| j < slot implies old(self)@.contains(j) by {
                if !old(self).live[j as int] {
                    assert(before.contains(j as usize));
                    let i = choose|i: int| 0 <= i < before.len() && before[i] == j as usize;
                    assert(before[i] > before[before.len() - 1] || i == before.len() - 1);
                }
            }
            self.live.set(slot, true);
            assert(self@ =~= old(self)@.insert(slot as nat));
            assert forall|j: int|
                0 <= j < self.live.len() && !(#[trigger] self.live[j]) implies self.free@.contains(
                j as usize,
            ) by {
                assert(before.contains(j as usize));
                let i = choose|i: int| 0 <= i < before.len() && before[i] == j as usize;
                assert(self.free@[i] == j as usize);
            }
            slot
        } else {
            let slot: usize = self.live.len();
            assert forall|j: nat| j < slot implies old(self)@.contains(j) by {
                if !old(self).live[j as int] {
                    assert(old(self).free@.contains(j as usize));
                }
            }
            self.live.push(true);
            assert(self@ =~= old(self)@.insert(slot as nat));
            slot
        }
    }

    /// Takes back an index that is in use.
    pub fn release(&mut self, slot: usize)
        requires
            old(self).wf(),
            old(self)@.contains(slot as nat),
        ensures
            final(self).wf(),
            final(self)@ == old(self)@.remove(slot as nat),
            final(self).capacity() == old(self).capacity(),
    {
        self.live.set(slot, false);
        let mut at: usize = self.free.len();
        while at > 0 && self.free[at - 1] < slot
            invariant
                at <= self.free.len(),
                self.free == old(self).free,
                forall|k: int| at <= k < self.free.len() ==> (#[trigger] self.free[k]) < slot,
            decreases at,
        {
            at = at - 1;
        }
        let ghost before = self.free@;
        self.free.insert(at, slot);
        assert(self@ =~= old(self)@.remove(slot as nat));
        assert forall|j: int|
            0 <= j < self.live.len() && !(#[trigger] self.live[j]) implies self.free@.contains(
            j as usize,
        ) by {
            if j == slot {
                assert(self.free@[at as int] == slot);
            } else {
                assert(before.contains(j as usize));
                let i = choose|i: int| 0 <= i < before.len() && before[i] == j as usize;
                if i < at {
                    assert(self.free@[i] == j as usize);
                } else {
                    assert(self.free@[i + 1] == j as usize);
                }
            }
        }
        assert forall|i: int, k: int| 0 <= i < k < self.free.len() implies (#[trigger] self.free[i])
            > (#[trigger] self.free[k]) by {
            if at > 0 {
                assert(before[at - 1] >= slot);
                assert(!old(self).live[before[at - 1] as int]);
            }
            if i < at && k > at {
                assert(before[i] > before[k - 1]);
            }
            if i < at && k == at && i < at - 1 {
                assert(before[i] > before[at - 1]);
            }
        }
    }

    /// Whether an index is in use.
    pub fn is_live(&self, slot: usize) -> (live: bool)
        ensures
            live == self@.contains(slot as nat),
    {
        slot < self.live.len() && self.live[slot]
    }
}

} // verus!
