//! The recency list of the page cache: a doubly linked list threaded through
//! a table of links, addressed by slot index.

use vstd::prelude::*;

verus! {

/// The neighbours of one slot in the recency list.
pub struct Link {
    pub prev: Option<usize>,
    pub next: Option<usize>,
}

/// A recency list over the slot indices `0..capacity()`. Its view is the
/// sequence of the linked slots, most recently used first.
pub struct LruList {
    links: Vec<Link>,
    head: Option<usize>,
    tail: Option<usize>,
    order: Ghost<Seq<usize>>,
}

impl View for LruList {
    type V = Seq<usize>;

    closed spec fn view(&self) -> Seq<usize> {
        self.order@
    }
}

/// The element of `s` before position `i`, if there is one.
pub open spec fn before(s: Seq<usize>, i: int) -> Option<usize> {
    if 0 < i <= s.len() {
        Some(s[i - 1])
    } else {
        None
    }
}

/// The element of `s` after position `i`, if there is one.
pub open spec fn after(s: Seq<usize>, i: int) -> Option<usize> {
    if -1 <= i < s.len() - 1 {
        Some(s[i + 1])
    } else {
        None
    }
}

impl LruList {
    /// How many slots the list can address.
    pub closed spec fn capacity(&self) -> nat {
        self.links@.len()
    }

    /// The links describe the order: no slot is listed twice, the ends are
    /// the head and the tail, and every listed slot knows its neighbours.
    pub closed spec fn wf(&self) -> bool {
        let order = self.order@;
        &&& order.no_duplicates()
        &&& self.head == after(order, -1)
        &&& self.tail == before(order, order.len() as int)
        &&& forall|i: int|
            0 <= i < order.len() ==> {
                &&& #[trigger] order[i] < self.links@.len()
                &&& self.links@[order[i] as int].prev == before(order, i)
                &&& self.links@[order[i] as int].next == after(order, i)
            }
    }

    /// A well-formed list names each of its slots once, all below its capacity.
    pub proof fn lemma_wf(&self)
        requires
            self.wf(),
        ensures
            self@.no_duplicates(),
            forall|i: int| 0 <= i < self@.len() ==> #[trigger] self@[i] < self.capacity(),
    {
    }

    /// The empty list over no slots.
    pub fn new() -> (r: LruList)
        ensures
            r.wf(),
            r@ == Seq::<usize>::empty(),
            r.capacity() == 0,
    {
        LruList { links: Vec::new(), head: None, tail: None, order: Ghost(Seq::empty()) }
    }

    /// Makes room for one more slot index, which is not yet linked.
    pub fn grow(&mut self)
        requires
            old(self).wf(),
        ensures
            final(self).wf(),
            final(self)@ == old(self)@,
            final(self).capacity() == old(self).capacity() + 1,
    {
        self.links.push(Link { prev: None, next: None });
    }

    /// The least recently used slot, or `None` when nothing is linked.
    pub fn tail(&self) -> (r: Option<usize>)
        requires
            self.wf(),
        ensures
            r == before(self@, self@.len() as int),
    {
        self.tail
    }

    /// Links `slot` as the most recently used one.
    pub fn push_front(&mut self, slot: usize)
        requires
            old(self).wf(),
            slot < old(self).capacity(),
            !old(self)@.contains(slot),
        ensures
            final(self).wf(),
            final(self)@ == seq![slot] + old(self)@,
            final(self).capacity() == old(self).capacity(),
    {
        let ghost old_order = self.order@;
        let old_head = self.head;
        self.links[slot] = Link { prev: None, next: old_head };
        match old_head {
            Some(h) => {
                let next = self.links[h].next;
                self.links[h] = Link { prev: Some(slot), next };
            },
            None => {
                self.tail = Some(slot);
            },
        }
        self.head = Some(slot);
        self.order = Ghost(seq![slot] + old_order);
        proof {
            let order = self.order@;
            assert forall|i: int, j: int|
                0 <= i < order.len() && 0 <= j < order.len() && i != j implies order[i]
                != order[j] by {
                if i > 0 {
                    assert(order[i] == old_order[i - 1]);
                }
                if j > 0 {
                    assert(order[j] == old_order[j - 1]);
                }
            }
            assert forall|i: int| 0 <= i < order.len() implies {
                &&& #[trigger] order[i] < self.links@.len()
                &&& self.links@[order[i] as int].prev == before(order, i)
                &&& self.links@[order[i] as int].next == after(order, i)
            } by {
                if i > 0 {
                    assert(order[i] == old_order[i - 1]);
                    assert(old_order.contains(old_order[i - 1]));
                    if i > 1 {
                        assert(old_order[i - 1] != old_order[0]);
                        assert(order[i - 1] == old_order[i - 2]);
                    }
                    if i + 1 < order.len() {
                        assert(order[i + 1] == old_order[i]);
                    }
                } else if old_order.len() > 0 {
                    assert(order[1] == old_order[0]);
                    assert(old_order.contains(old_order[0]));
                }
            }
        }
    }

    /// Unlinks `slot`; the others keep their order.
    pub fn remove(&mut self, slot: usize)
        requires
            old(self).wf(),
            old(self)@.contains(slot),
        ensures
            final(self).wf(),
            final(self)@ == old(self)@.remove(old(self)@.index_of(slot)),
            final(self).capacity() == old(self).capacity(),
    {
        let ghost old_order = self.order@;
        let ghost at = old_order.index_of(slot);
        assert(0 <= at < old_order.len() && old_order[at] == slot);
        let prev = self.links[slot].prev;
        let next = self.links[slot].next;
        match prev {
            Some(p) => {
                assert(p == old_order[at - 1]);
                let pp = self.links[p].prev;
                self.links[p] = Link { prev: pp, next };
            },
            None => {
                self.head = next;
            },
        }
        match next {
            Some(n) => {
                assert(n == old_order[at + 1]);
                let nn = self.links[n].next;
                self.links[n] = Link { prev, next: nn };
            },
            None => {
                self.tail = prev;
            },
        }
        self.links[slot] = Link { prev: None, next: None };
        self.order = Ghost(old_order.remove(at));
        proof {
            let order = self.order@;
            assert forall|i: int| 0 <= i < order.len() implies order[i] == old_order[if i < at {
                i
            } else {
                i + 1
            }] by {}
            assert forall|i: int, j: int|
                0 <= i < order.len() && 0 <= j < order.len() && i != j implies order[i]
                != order[j] by {}
            assert forall|i: int| 0 <= i < order.len() implies {
                &&& #[trigger] order[i] < self.links@.len()
                &&& self.links@[order[i] as int].prev == before(order, i)
                &&& self.links@[order[i] as int].next == after(order, i)
            } by {
                let k = if i < at {
                    i
                } else {
                    i + 1
                };
                assert(order[i] == old_order[k]);
                assert(old_order[k] != old_order[at]);
                if i > 0 {
                    assert(order[i - 1] == old_order[if i - 1 < at {
                        i - 1
                    } else {
                        i
                    }]);
                }
                if i + 1 < order.len() {
                    assert(order[i + 1] == old_order[if i + 1 < at {
                        i + 1
                    } else {
                        i + 2
                    }]);
                }
            }
        }
    }
}

} // verus!
