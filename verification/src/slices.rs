//! Handing out fixed-size slices of a memory pool.

use vstd::prelude::*;

verus! {

/// The bump cursor over a pool: slices of one size are handed out one after the
/// other and never come back. Where each slice starts that was handed out is
/// kept track of in ghost code.
pub struct SliceCursor {
    next: u32,
    slice: u32,
    handed: Ghost<Seq<u32>>,
}

impl SliceCursor {
    /// Where the next slice starts.
    pub closed spec fn next(&self) -> u32 {
        self.next
    }

    /// The size of a slice.
    pub closed spec fn slice(&self) -> u32 {
        self.slice
    }

    /// Where the slices start that were handed out, in order.
    pub closed spec fn handed(&self) -> Seq<u32> {
        self.handed@
    }

    /// Every slice that was handed out ends before the later ones start and
    /// before the cursor.
    pub closed spec fn wf(&self) -> bool {
        &&& forall|i: int|
            0 <= i < self.handed@.len() ==> (#[trigger] self.handed@[i]) + self.slice <= self.next
        &&& forall|i: int, j: int|
            0 <= i < j < self.handed@.len() ==> (#[trigger] self.handed@[i]) + self.slice
                <= #[trigger] self.handed@[j]
    }

    /// A cursor at the pool's start.
    pub fn new(slice: u32) -> (r: Self)
        ensures
            r.wf(),
            r.next() == 0,
            r.slice() == slice,
            r.handed() == Seq::<u32>::empty(),
    {
        SliceCursor { next: 0, slice, handed: Ghost(Seq::empty()) }
    }

    /// The start of a fresh slice, or where the cursor stands if no slice
    /// starting there ends within the pool's address range.
    pub fn reserve(&mut self) -> (r: Result<u32, u32>)
        requires
            old(self).wf(),
        ensures
            final(self).wf(),
            final(self).slice() == old(self).slice(),
            match r {
                Ok(base) => {
                    &&& base == old(self).next()
                    &&& base + old(self).slice() <= u32::MAX
                    &&& final(self).next() == base + old(self).slice()
                    &&& final(self).handed() == old(self).handed().push(base)
                },
                Err(base) => {
                    &&& base == old(self).next()
                    &&& base + old(self).slice() > u32::MAX
                    &&& final(self).next() == base
                    &&& final(self).handed() == old(self).handed()
                },
            },
    {
        let base: u32 = self.next;
        match base.checked_add(self.slice) {
            Some(next) => {
                self.next = next;
                proof {
                    self.handed = Ghost(self.handed@.push(base));
                }
                Ok(base)
            },
            None => Err(base),
        }
    }

    /// Two slices that were handed out share no byte of the pool.
    pub proof fn lemma_slices_disjoint(&self, i: int, j: int)
        requires
            self.wf(),
            0 <= i < self.handed().len(),
            0 <= j < self.handed().len(),
            i != j,
        ensures
            self.handed()[i] + self.slice() <= self.handed()[j] || self.handed()[j] + self.slice()
                <= self.handed()[i],
    {
        if i < j {
            assert(self.handed@[i] + self.slice <= self.handed@[j]);
        } else {
            assert(self.handed@[j] + self.slice <= self.handed@[i]);
        }
    }
}

} // verus!
