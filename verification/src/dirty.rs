//! A fixed-capacity, arena-style set of pending dirty regions: slots are
//! filled left to right, insertion into a full set is a reportable capacity
//! error, and the set is explicitly cleared between frames. The hard cap
//! bounds per-frame transfer overhead without dynamic allocation.

use vstd::prelude::*;
use crate::region::Region;

verus! {

/// Number of region slots in a `DirtyRegionSet`.
pub const DIRTY_REGION_CAPACITY: usize = 10;

/// A fixed array of `Option<Region>` slots, filled left to right. Inserting
/// into a full set fails; it never overwrites and never drops a region
/// silently.
pub struct DirtyRegionSet {
    slots: Vec<Option<Region>>,
    used: usize,
}

impl View for DirtyRegionSet {
    type V = Seq<Region>;

    /// The pending regions, in insertion order.
    closed spec fn view(&self) -> Seq<Region> {
        Seq::new(self.used as nat, |i: int| self.slots@[i].unwrap())
    }
}

impl DirtyRegionSet {
    /// Well-formedness: exactly `DIRTY_REGION_CAPACITY` slots, occupied in a
    /// left-to-right prefix.
    pub closed spec fn wf(&self) -> bool {
        &&& self.slots@.len() == DIRTY_REGION_CAPACITY
        &&& self.used <= DIRTY_REGION_CAPACITY
        &&& forall|i: int| 0 <= i < self.used ==> self.slots@[i] is Some
        &&& forall|i: int| self.used <= i < DIRTY_REGION_CAPACITY ==> self.slots@[i] is None
    }

    /// Creates an empty set with all slots free.
    pub fn new() -> (r: Self)
        ensures
            r.wf(),
            r@.len() == 0,
    {
        let mut slots: Vec<Option<Region>> = Vec::new();
        let mut i: usize = 0;
        while i < DIRTY_REGION_CAPACITY
            invariant
                i <= DIRTY_REGION_CAPACITY,
                slots@.len() == i,
                forall|j: int| 0 <= j < i ==> slots@[j] is None,
            decreases DIRTY_REGION_CAPACITY - i,
        {
            slots.push(None);
            i = i + 1;
        }
        DirtyRegionSet { slots, used: 0 }
    }

    /// Number of pending regions.
    pub fn len(&self) -> (r: usize)
        requires
            self.wf(),
        ensures
            r == self@.len(),
            r <= DIRTY_REGION_CAPACITY,
    {
        self.used
    }

    /// Appends `region` into the first free slot, in O(1). Returns `Err`
    /// exactly when all slots are occupied, leaving the set unchanged.
    pub fn insert(&mut self, region: Region) -> (r: Result<(), ()>)
        requires
            old(self).wf(),
        ensures
            final(self).wf(),
            r is Ok <==> old(self)@.len() < DIRTY_REGION_CAPACITY,
            old(self)@.len() < DIRTY_REGION_CAPACITY ==> final(self)@ == old(self)@.push(region),
            old(self)@.len() >= DIRTY_REGION_CAPACITY ==> final(self)@ == old(self)@,
    {
        if self.used < DIRTY_REGION_CAPACITY {
            self.slots.set(self.used, Some(region));
            self.used = self.used + 1;
            proof {
                assert(self@ =~= old(self)@.push(region));
            }
            Ok(())
        } else {
            Err(())
        }
    }

    /// Resets every slot to free. O(capacity), since slots hold values, not
    /// pointers.
    pub fn clear(&mut self)
        requires
            old(self).wf(),
        ensures
            final(self).wf(),
            final(self)@.len() == 0,
    {
        let mut i: usize = 0;
        while i < DIRTY_REGION_CAPACITY
            invariant
                i <= DIRTY_REGION_CAPACITY,
                self.slots@.len() == DIRTY_REGION_CAPACITY,
                forall|j: int| 0 <= j < i ==> self.slots@[j] is None,
            decreases DIRTY_REGION_CAPACITY - i,
        {
            self.slots.set(i, None);
            i = i + 1;
        }
        self.used = 0;
    }

    /// The underlying slot array: the first `len` slots hold the pending
    /// regions in insertion order, the rest are free.
    pub fn slots(&self) -> (r: &[Option<Region>])
        requires
            self.wf(),
        ensures
            r@.len() == DIRTY_REGION_CAPACITY,
            forall|i: int| 0 <= i < self@.len() ==> r@[i] == Some(self@[i]),
            forall|i: int| self@.len() <= i < DIRTY_REGION_CAPACITY ==> r@[i] is None,
    {
        self.slots.as_slice()
    }

    /// The region in slot `i`, if that slot is occupied.
    pub fn get(&self, i: usize) -> (r: Option<Region>)
        requires
            self.wf(),
            i < DIRTY_REGION_CAPACITY,
        ensures
            i < self@.len() ==> r == Some(self@[i as int]),
            i >= self@.len() ==> r is None,
    {
        self.slots[i]
    }
}

} // verus!
