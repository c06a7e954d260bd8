//! What a caller can rely on of shared memory: when a lock is granted, what it
//! changes, and what a region holds.

use crate::vfs::shm::{lock_range, lock_request, ShmModel, ShmTable, SlotModel};
use vstd::prelude::*;

verus! {

/// Handle `g` holds the lock alone.
pub open spec fn holds_alone(s: SlotModel, g: usize) -> bool {
    s.exclusive == Some(g)
}

/// When locks are granted: a shared one exactly if no other handle holds any of them
/// alone, and an exclusive one exactly if no other handle holds any of them at all.
pub proof fn lemma_when_locks_are_granted(m: ShmModel, h: usize, ofst: int, n: int)
    requires
        0 <= ofst,
        ofst + n <= m.slots.len(),
    ensures
        m.grantable(h, ofst, n, false) <==> forall|i: int|
            ofst <= i < ofst + n ==> (#[trigger] m.slots[i]).exclusive is None
                || m.slots[i].exclusive->0 == h,
        m.grantable(h, ofst, n, true) <==> forall|i: int|
            ofst <= i < ofst + n ==> ((#[trigger] m.slots[i]).exclusive is None
                || m.slots[i].exclusive->0 == h) && m.slots[i].shared.subset_of(
                Set::<usize>::empty().insert(h),
            ),
{
    if m.grantable(h, ofst, n, true) {
        assert forall|i: int| ofst <= i < ofst + n implies ((#[trigger] m.slots[i]).exclusive is None
            || m.slots[i].exclusive->0 == h) && m.slots[i].shared.subset_of(
            Set::<usize>::empty().insert(h),
        ) by {
            assert(m.slots[i].available(h));
        }
    }
    if forall|i: int|
        ofst <= i < ofst + n ==> ((#[trigger] m.slots[i]).exclusive is None
            || m.slots[i].exclusive->0 == h) && m.slots[i].shared.subset_of(
            Set::<usize>::empty().insert(h),
        ) {
        assert forall|i: int| ofst <= i < ofst + n implies (#[trigger] m.slots[i]).available(h) by {
            assert forall|g: usize| #[trigger] m.slots[i].shared.contains(g) implies g == h by {
                assert(Set::<usize>::empty().insert(h).contains(g));
            }
        }
    }
    if m.grantable(h, ofst, n, false) {
        assert forall|i: int| ofst <= i < ofst + n implies (#[trigger] m.slots[i]).exclusive is None
            || m.slots[i].exclusive->0 == h by {
            assert(m.slots[i].shareable(h));
        }
    }
}

/// What a granted request changes: the locks that it names are held, or not held any
/// more, by the handle that asked, in the way that it asked for. No other lock and no
/// other handle's part in a lock changes, nor does any region or user.
pub proof fn lemma_what_a_lock_changes(
    m: ShmModel,
    h: usize,
    ofst: int,
    n: int,
    lock: bool,
    exclusive: bool,
    i: int,
    g: usize,
)
    requires
        0 <= i < m.slots.len(),
        lock ==> m.grantable(h, ofst, n, exclusive),
    ensures
        ({
            let a = m.relocked(h, ofst, n, lock, exclusive);
            let s = m.slots[i];
            let t = a.slots[i];
            &&& a.regions == m.regions
            &&& a.users == m.users
            &&& a.slots.len() == m.slots.len()
            &&& !(ofst <= i < ofst + n) ==> t == s
            &&& ofst <= i < ofst + n ==> {
                &&& exclusive ==> t.shared == s.shared && (holds_alone(t, h) <==> lock)
                &&& !exclusive ==> t.exclusive == s.exclusive && (t.shared.contains(h) <==> lock)
                &&& g != h ==> (t.shared.contains(g) <==> s.shared.contains(g))
                &&& g != h && !lock ==> (holds_alone(t, g) <==> holds_alone(s, g))
            }
        }),
{
}

/// What leaving changes: the handle holds no lock and is no user any more; no other
/// handle's part in a lock changes, nor does any region.
pub proof fn lemma_what_leaving_changes(m: ShmModel, h: usize, i: int, g: usize)
    requires
        0 <= i < m.slots.len(),
    ensures
        m.left(h).regions == m.regions,
        m.left(h).slots.len() == m.slots.len(),
        !m.left(h).users.contains(h),
        g != h ==> (m.left(h).users.contains(g) <==> m.users.contains(g)),
        !holds_alone(m.left(h).slots[i], h),
        !m.left(h).slots[i].shared.contains(h),
        g != h ==> (holds_alone(m.left(h).slots[i], g) <==> holds_alone(m.slots[i], g)),
        g != h ==> (m.left(h).slots[i].shared.contains(g) <==> m.slots[i].shared.contains(g)),
{
}

/// What extending changes: the regions that are there stay as they are, those that
/// are missing up to the number asked for are zeros of the size asked for, and there
/// are no more than that.
pub proof fn lemma_what_extending_changes(m: ShmModel, n: nat, words: nat, i: int, j: int)
    ensures
        ({
            let a = m.extended(n, words);
            &&& a.slots == m.slots
            &&& a.users == m.users
            &&& a.regions.len() >= m.regions.len()
            &&& a.regions.len() >= n
            &&& a.regions.len() == m.regions.len() || a.regions.len() == n
            &&& 0 <= i < m.regions.len() ==> a.regions[i] == m.regions[i]
            &&& m.regions.len() <= i < a.regions.len() ==> a.regions[i].len() == words
            &&& m.regions.len() <= i < a.regions.len() && 0 <= j < words ==> a.regions[i][j] == 0
        }),
{
}

/// A memory that nobody used has eight locks, all free, and neither regions nor
/// users.
pub proof fn lemma_fresh_memory(i: int, g: usize)
    ensures
        ShmModel::fresh().regions.len() == 0,
        !ShmModel::fresh().users.contains(g),
        ShmModel::fresh().slots.len() == 8,
        0 <= i < 8 ==> ShmModel::fresh().slots[i].exclusive is None
            && !ShmModel::fresh().slots[i].shared.contains(g),
{
}

/// The requests that are understood: lock or unlock, shared or exclusive, and nothing
/// else; and the ranges that are: at least one of the eight locks, and no other.
pub proof fn lemma_lock_requests(flags: i32, ofst: i32, n: i32)
    ensures
        lock_request(flags) == Some((true, false)) <==> flags == 6,
        lock_request(flags) == Some((true, true)) <==> flags == 10,
        lock_request(flags) == Some((false, false)) <==> flags == 5,
        lock_request(flags) == Some((false, true)) <==> flags == 9,
        lock_request(flags) is Some <==> flags == 5 || flags == 6 || flags == 9 || flags == 10,
        lock_range(ofst, n) <==> ofst >= 0 && n >= 1 && ofst + n <= 8,
{
    assert(2i32 | 4i32 == 6i32) by (bit_vector);
    assert(2i32 | 8i32 == 10i32) by (bit_vector);
    assert(1i32 | 4i32 == 5i32) by (bit_vector);
    assert(1i32 | 8i32 == 9i32) by (bit_vector);
}

/// The memory of a storage is the one that is kept for it, or else a fresh one.
pub proof fn lemma_memory_of_a_storage(t: ShmTable, id: usize)
    ensures
        t@.contains_key(id) ==> t.shm_of(id) == t@[id],
        !t@.contains_key(id) ==> t.shm_of(id) == ShmModel::fresh(),
{
}

} // verus!
