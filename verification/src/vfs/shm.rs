//! The memory that the connections to one database share for its write-ahead
//! log: regions of words, and the locks that guard them.
//!
//! There is one such memory per storage. It is there as long as some handle has
//! it mapped.

use crate::codes::{
    SQLITE_BUSY, SQLITE_IOERR, SQLITE_OK, SQLITE_SHM_EXCLUSIVE, SQLITE_SHM_LOCK, SQLITE_SHM_SHARED,
    SQLITE_SHM_UNLOCK,
};
use vstd::prelude::*;

verus! {

/// How many locks there are.
pub const SHM_NLOCK: usize = 8;

/// A lock: the handle that holds it alone, or those that share it.
pub struct ShmSlot {
    exclusive: Option<usize>,
    shared: Vec<usize>,
}

/// A lock, as the model sees it.
#[verifier::ext_equal]
pub struct SlotModel {
    pub exclusive: Option<usize>,
    pub shared: Set<usize>,
}

impl View for ShmSlot {
    type V = SlotModel;

    closed spec fn view(&self) -> SlotModel {
        SlotModel { exclusive: self.exclusive, shared: self.shared@.to_set() }
    }
}

impl SlotModel {
    /// Where a handle holds the lock alone, no other one shares it.
    pub open spec fn wf(self) -> bool {
        match self.exclusive {
            Some(h) => forall|g: usize| #[trigger] self.shared.contains(g) ==> g == h,
            None => true,
        }
    }

    /// Nobody but `h` holds the lock alone.
    pub open spec fn shareable(self, h: usize) -> bool {
        self.exclusive is None || self.exclusive == Some(h)
    }

    /// Nobody but `h` holds the lock at all.
    pub open spec fn available(self, h: usize) -> bool {
        self.shareable(h) && forall|g: usize| #[trigger] self.shared.contains(g) ==> g == h
    }

    /// `h` shares the lock too.
    pub open spec fn with_shared(self, h: usize) -> SlotModel {
        SlotModel { shared: self.shared.insert(h), ..self }
    }

    /// `h` holds the lock alone.
    pub open spec fn with_exclusive(self, h: usize) -> SlotModel {
        SlotModel { exclusive: Some(h), ..self }
    }

    /// `h` does not share the lock any more.
    pub open spec fn without_shared(self, h: usize) -> SlotModel {
        SlotModel { shared: self.shared.remove(h), ..self }
    }

    /// `h` does not hold the lock alone any more.
    pub open spec fn without_exclusive(self, h: usize) -> SlotModel {
        SlotModel {
            exclusive: if self.exclusive == Some(h) {
                None
            } else {
                self.exclusive
            },
            ..self
        }
    }

    /// `h` does not hold the lock at all any more.
    pub open spec fn released(self, h: usize) -> SlotModel {
        self.without_shared(h).without_exclusive(h)
    }
}

/// A member of a list is found.
fn holds(v: &Vec<usize>, h: usize) -> (r: bool)
    ensures
        r == v@.to_set().contains(h),
{
    let mut i: usize = 0;
    while i < v.len()
        invariant
            i <= v.len(),
            forall|j: int| 0 <= j < i ==> #[trigger] v@[j] != h,
        decreases v.len() - i,
    {
        if v[i] == h {
            assert(v@[i as int] == h);
            return true;
        }
        i = i + 1;
    }
    false
}

/// Whether nobody but `h` is in a list.
fn only(v: &Vec<usize>, h: usize) -> (r: bool)
    ensures
        r ==> forall|j: int| 0 <= j < v@.len() ==> #[trigger] v@[j] == h,
        !r ==> exists|j: int| 0 <= j < v@.len() && #[trigger] v@[j] != h,
{
    let mut i: usize = 0;
    while i < v.len()
        invariant
            i <= v.len(),
            forall|j: int| 0 <= j < i ==> #[trigger] v@[j] == h,
        decreases v.len() - i,
    {
        if v[i] != h {
            return false;
        }
        i = i + 1;
    }
    true
}

/// A list without `h`.
fn without(v: &Vec<usize>, h: usize) -> (r: Vec<usize>)
    ensures
        r@.to_set() == v@.to_set().remove(h),
{
    let mut r: Vec<usize> = Vec::new();
    let mut i: usize = 0;
    while i < v.len()
        invariant
            i <= v.len(),
            forall|g: usize| #[trigger]
                r@.contains(g) <==> g != h && v@.take(i as int).contains(g),
        decreases v.len() - i,
    {
        let ghost before = r@;
        let x: usize = v[i];
        if x != h {
            r.push(x);
        }
        proof {
            let a = v@.take(i as int);
            let b = v@.take(i + 1);
            assert(b =~= a.push(x));
            assert forall|g: usize| #[trigger] r@.contains(g) <==> g != h && b.contains(g) by {
                lemma_push_contains(a, x, g);
                if x != h {
                    lemma_push_contains(before, x, g);
                }
            }
        }
        i = i + 1;
    }
    proof {
        assert(v@.take(i as int) =~= v@);
        assert forall|g: usize| r@.to_set().contains(g) <==> v@.to_set().remove(h).contains(g) by {
            assert(r@.contains(g) <==> g != h && v@.contains(g));
        }
        assert(r@.to_set() =~= v@.to_set().remove(h));
    }
    r
}

proof fn lemma_push_contains(s: Seq<usize>, x: usize, g: usize)
    ensures
        s.push(x).contains(g) <==> s.contains(g) || g == x,
{
    let t = s.push(x);
    if s.contains(g) {
        let j = choose|j: int| 0 <= j < s.len() && s[j] == g;
        assert(t[j] == g);
    }
    if t.contains(g) {
        let j = choose|j: int| 0 <= j < t.len() && t[j] == g;
        assert(j < s.len() ==> s[j] == g);
    }
    assert(t[s.len() as int] == x);
}

impl ShmSlot {
    fn new() -> (r: Self)
        ensures
            r@ == (SlotModel { exclusive: None, shared: Set::<usize>::empty() }),
    {
        let r = ShmSlot { exclusive: None, shared: Vec::new() };
        assert(r@.shared =~= Set::<usize>::empty());
        r
    }

    fn is_shareable(&self, h: usize) -> (r: bool)
        ensures
            r == self@.shareable(h),
    {
        match self.exclusive {
            None => true,
            Some(g) => g == h,
        }
    }

    fn is_available(&self, h: usize) -> (r: bool)
        ensures
            r == self@.available(h),
    {
        let alone: bool = only(&self.shared, h);
        proof {
            if alone {
                assert forall|g: usize| #[trigger] self@.shared.contains(g) implies g == h by {
                    assert(self.shared@.contains(g));
                }
            } else {
                let j = choose|j: int| 0 <= j < self.shared@.len() && #[trigger] self.shared@[j] != h;
                assert(self@.shared.contains(self.shared@[j]));
            }
        }
        self.is_shareable(h) && alone
    }

    fn add_shared(&mut self, h: usize)
        ensures
            final(self)@ == old(self)@.with_shared(h),
    {
        if holds(&self.shared, h) {
            assert(self@.shared =~= self@.shared.insert(h));
            return;
        }
        let ghost before = self.shared@;
        self.shared.push(h);
        proof {
            assert forall|g: usize| self@.shared.contains(g) <==> old(self)@.shared.insert(
                h,
            ).contains(g) by {
                lemma_push_contains(before, h, g);
                assert(before.push(h).contains(g) <==> self@.shared.contains(g));
                assert(before.contains(g) <==> old(self)@.shared.contains(g));
            }
            assert(self@.shared =~= old(self)@.shared.insert(h));
        }
    }

    fn set_exclusive(&mut self, h: usize)
        ensures
            final(self)@ == old(self)@.with_exclusive(h),
    {
        self.exclusive = Some(h);
    }

    fn drop_shared(&mut self, h: usize)
        ensures
            final(self)@ == old(self)@.without_shared(h),
    {
        self.shared = without(&self.shared, h);
    }

    fn drop_exclusive(&mut self, h: usize)
        ensures
            final(self)@ == old(self)@.without_exclusive(h),
    {
        match self.exclusive {
            Some(g) => {
                if g == h {
                    self.exclusive = None;
                }
            },
            None => {},
        }
    }
}

/// The memory of one storage.
pub struct Shm {
    regions: Vec<Vec<u64>>,
    slots: Vec<ShmSlot>,
    users: Vec<usize>,
}

/// The memory of one storage, as the model sees it: its regions, its locks, and
/// the handles that have it mapped.
#[verifier::ext_equal]
pub struct ShmModel {
    pub regions: Seq<Seq<u64>>,
    pub slots: Seq<SlotModel>,
    pub users: Set<usize>,
}

impl View for Shm {
    type V = ShmModel;

    closed spec fn view(&self) -> ShmModel {
        ShmModel {
            regions: self.regions@.map_values(|v: Vec<u64>| v@),
            slots: self.slots@.map_values(|s: ShmSlot| s@),
            users: self.users@.to_set(),
        }
    }
}

/// A region of zeros.
pub open spec fn blank_region(words: nat) -> Seq<u64> {
    Seq::new(words, |i: int| 0u64)
}

impl ShmModel {
    /// A memory without regions, locks held or users.
    pub open spec fn fresh() -> ShmModel {
        ShmModel {
            regions: Seq::empty(),
            slots: Seq::new(
                SHM_NLOCK as nat,
                |i: int| SlotModel { exclusive: None, shared: Set::<usize>::empty() },
            ),
            users: Set::empty(),
        }
    }

    /// There are all the locks, and each is held consistently.
    pub open spec fn wf(self) -> bool {
        &&& self.slots.len() == SHM_NLOCK
        &&& forall|i: int| 0 <= i < self.slots.len() ==> (#[trigger] self.slots[i]).wf()
    }

    /// There are at least `n` regions: those that are missing are zeros.
    pub open spec fn extended(self, n: nat, words: nat) -> ShmModel {
        ShmModel {
            regions: if self.regions.len() < n {
                self.regions + Seq::new(
                    (n - self.regions.len()) as nat,
                    |i: int| blank_region(words),
                )
            } else {
                self.regions
            },
            ..self
        }
    }

    /// The locks from `ofst` on, `n` of them, can be granted to `h`.
    pub open spec fn grantable(self, h: usize, ofst: int, n: int, exclusive: bool) -> bool {
        forall|i: int|
            ofst <= i < ofst + n ==> if exclusive {
                (#[trigger] self.slots[i]).available(h)
            } else {
                self.slots[i].shareable(h)
            }
    }

    /// The locks from `ofst` on, `n` of them, are held or not held by `h`.
    pub open spec fn relocked(self, h: usize, ofst: int, n: int, lock: bool, exclusive: bool) -> ShmModel {
        ShmModel {
            slots: Seq::new(
                self.slots.len(),
                |i: int|
                    if ofst <= i < ofst + n {
                        if lock && exclusive {
                            self.slots[i].with_exclusive(h)
                        } else if lock {
                            self.slots[i].with_shared(h)
                        } else if exclusive {
                            self.slots[i].without_exclusive(h)
                        } else {
                            self.slots[i].without_shared(h)
                        }
                    } else {
                        self.slots[i]
                    },
            ),
            ..self
        }
    }

    /// `h` holds no lock and has the memory mapped no more.
    pub open spec fn left(self, h: usize) -> ShmModel {
        ShmModel {
            slots: self.slots.map_values(|s: SlotModel| s.released(h)),
            users: self.users.remove(h),
            ..self
        }
    }
}

impl Shm {
    fn new() -> (r: Self)
        ensures
            r@ == ShmModel::fresh(),
    {
        let mut slots: Vec<ShmSlot> = Vec::new();
        while slots.len() < SHM_NLOCK
            invariant
                slots.len() <= SHM_NLOCK,
                forall|i: int|
                    0 <= i < slots@.len() ==> (#[trigger] slots@[i])@ == (SlotModel {
                        exclusive: None,
                        shared: Set::<usize>::empty(),
                    }),
            decreases SHM_NLOCK - slots.len(),
        {
            slots.push(ShmSlot::new());
        }
        let r = Shm { regions: Vec::new(), slots, users: Vec::new() };
        proof {
            assert(r@.regions =~= ShmModel::fresh().regions);
            assert(r@.slots =~= ShmModel::fresh().slots);
            assert(r@.users =~= ShmModel::fresh().users);
        }
        r
    }

    fn add_user(&mut self, h: usize)
        ensures
            final(self)@ == (ShmModel { users: old(self)@.users.insert(h), ..old(self)@ }),
    {
        if holds(&self.users, h) {
            assert(self@.users =~= self@.users.insert(h));
            return;
        }
        let ghost before = self.users@;
        self.users.push(h);
        proof {
            assert forall|g: usize| self@.users.contains(g) <==> old(self)@.users.insert(
                h,
            ).contains(g) by {
                lemma_push_contains(before, h, g);
                assert(before.push(h).contains(g) <==> self@.users.contains(g));
                assert(before.contains(g) <==> old(self)@.users.contains(g));
            }
            assert(self@.users =~= old(self)@.users.insert(h));
        }
    }

    fn extend(&mut self, n: usize, words: usize)
        ensures
            final(self)@ == old(self)@.extended(n as nat, words as nat),
    {
        let ghost m = self@;
        while self.regions.len() < n
            invariant
                self.slots == old(self).slots,
                self.users == old(self).users,
                m == old(self)@,
                self@.regions == m.extended(self.regions@.len(), words as nat).regions,
                self.regions@.len() >= m.regions.len(),
                self.regions@.len() <= n || self.regions@.len() == m.regions.len(),
            decreases n - self.regions.len(),
        {
            let region: Vec<u64> = vec![0u64; words];
            assert(region@ =~= blank_region(words as nat));
            let ghost before = self@.regions;
            self.regions.push(region);
            assert(self@.regions =~= before.push(blank_region(words as nat)));
            assert(self@.regions =~= m.extended(self.regions@.len(), words as nat).regions);
        }
        assert(self@.regions =~= m.extended(n as nat, words as nat).regions);
    }

    fn can_grant(&self, h: usize, ofst: usize, n: usize, exclusive: bool) -> (r: bool)
        requires
            ofst + n <= self@.slots.len(),
        ensures
            r == self@.grantable(h, ofst as int, n as int, exclusive),
    {
        let mut i: usize = ofst;
        assert(ofst + n <= self.slots.len());
        let end: usize = ofst + n;
        while i < end
            invariant
                ofst <= i <= end,
                end == ofst + n,
                end <= self@.slots.len(),
                forall|j: int|
                    ofst <= j < i ==> if exclusive {
                        (#[trigger] self@.slots[j]).available(h)
                    } else {
                        self@.slots[j].shareable(h)
                    },
            decreases end - i,
        {
            assert(self@.slots[i as int] == self.slots@[i as int]@);
            let free: bool = if exclusive {
                self.slots[i].is_available(h)
            } else {
                self.slots[i].is_shareable(h)
            };
            if !free {
                return false;
            }
            i = i + 1;
        }
        true
    }

    fn relock(&mut self, h: usize, ofst: usize, n: usize, lock: bool, exclusive: bool)
        requires
            ofst + n <= old(self)@.slots.len(),
        ensures
            final(self)@ == old(self)@.relocked(h, ofst as int, n as int, lock, exclusive),
    {
        let ghost m = self@;
        let ghost want = m.relocked(h, ofst as int, n as int, lock, exclusive);
        let mut i: usize = ofst;
        assert(ofst + n <= self.slots.len());
        let end: usize = ofst + n;
        while i < end
            invariant
                ofst <= i <= end,
                end == ofst + n,
                end <= m.slots.len(),
                m == old(self)@,
                want == m.relocked(h, ofst as int, n as int, lock, exclusive),
                self.regions == old(self).regions,
                self.users == old(self).users,
                self.slots@.len() == m.slots.len(),
                forall|j: int|
                    0 <= j < m.slots.len() ==> (#[trigger] self.slots@[j])@ == if j < i {
                        want.slots[j]
                    } else {
                        m.slots[j]
                    },
            decreases end - i,
        {
            assert(self.slots@[i as int]@ == m.slots[i as int]);
            if lock && exclusive {
                self.slots[i].set_exclusive(h);
            } else if lock {
                self.slots[i].add_shared(h);
            } else if exclusive {
                self.slots[i].drop_exclusive(h);
            } else {
                self.slots[i].drop_shared(h);
            }
            assert(self.slots@[i as int]@ == want.slots[i as int]);
            i = i + 1;
        }
        assert(self@.slots =~= want.slots);
    }

    fn leave(&mut self, h: usize)
        ensures
            final(self)@ == old(self)@.left(h),
    {
        let ghost m = self@;
        let ghost want = m.left(h);
        let n: usize = self.slots.len();
        let mut i: usize = 0;
        while i < n
            invariant
                i <= n,
                n == m.slots.len(),
                m == old(self)@,
                want == m.left(h),
                self.regions == old(self).regions,
                self.users == old(self).users,
                self.slots@.len() == n,
                forall|j: int|
                    0 <= j < n ==> (#[trigger] self.slots@[j])@ == if j < i {
                        want.slots[j]
                    } else {
                        m.slots[j]
                    },
            decreases n - i,
        {
            assert(self.slots@[i as int]@ == m.slots[i as int]);
            self.slots[i].drop_shared(h);
            self.slots[i].drop_exclusive(h);
            i = i + 1;
        }
        self.users = without(&self.users, h);
        assert(self@.slots =~= want.slots);
    }
}

/// The shared memories, by the number of the storage.
pub struct ShmTable {
    shms: Vec<Option<Shm>>,
}

impl View for ShmTable {
    type V = Map<usize, ShmModel>;

    closed spec fn view(&self) -> Map<usize, ShmModel> {
        Map::new(
            |id: usize| id < self.shms@.len() && self.shms@[id as int] is Some,
            |id: usize| (self.shms@[id as int]->0)@,
        )
    }
}

/// What a lock request asks for.
pub open spec fn lock_request(flags: i32) -> Option<(bool, bool)> {
    if flags == (SQLITE_SHM_LOCK | SQLITE_SHM_SHARED) {
        Some((true, false))
    } else if flags == (SQLITE_SHM_LOCK | SQLITE_SHM_EXCLUSIVE) {
        Some((true, true))
    } else if flags == (SQLITE_SHM_UNLOCK | SQLITE_SHM_SHARED) {
        Some((false, false))
    } else if flags == (SQLITE_SHM_UNLOCK | SQLITE_SHM_EXCLUSIVE) {
        Some((false, true))
    } else {
        None
    }
}

/// The locks that a request names exist.
pub open spec fn lock_range(ofst: i32, n: i32) -> bool {
    0 <= ofst && 1 <= n && ofst + n <= SHM_NLOCK
}

impl ShmTable {
    /// Every memory is consistent.
    pub closed spec fn wf(&self) -> bool {
        forall|id: usize| #[trigger] self@.contains_key(id) ==> self@[id].wf()
    }

    /// Every memory is consistent.
    pub proof fn lemma_wf(&self, id: usize)
        requires
            self.wf(),
            self@.contains_key(id),
        ensures
            self@[id].wf(),
    {
    }

    /// No memories.
    pub fn new() -> (r: Self)
        ensures
            r.wf(),
            r@ == Map::<usize, ShmModel>::empty(),
    {
        let r = ShmTable { shms: Vec::new() };
        assert(r@ =~= Map::<usize, ShmModel>::empty());
        r
    }

    /// The memory of the storage `id` in the model; a fresh one where there is
    /// none.
    pub open spec fn shm_of(&self, id: usize) -> ShmModel {
        if self@.contains_key(id) {
            self@[id]
        } else {
            ShmModel::fresh()
        }
    }

    fn take(&mut self, id: usize) -> (r: Shm)
        requires
            old(self).wf(),
        ensures
            final(self).wf(),
            final(self)@ == old(self)@.remove(id),
            r@ == old(self).shm_of(id),
            r@.wf(),
    {
        if id < self.shms.len() {
            let taken: Option<Shm> = self.shms[id].take();
            assert(self@ =~= old(self)@.remove(id));
            match taken {
                Some(s) => {
                    assert(old(self)@.contains_key(id));
                    s
                },
                None => Shm::new(),
            }
        } else {
            assert(self@ =~= old(self)@.remove(id));
            Shm::new()
        }
    }

    fn put(&mut self, id: usize, s: Shm)
        requires
            old(self).wf(),
            s@.wf(),
        ensures
            final(self).wf(),
            final(self)@ == old(self)@.insert(id, s@),
    {
        let ghost sv = s@;
        while self.shms.len() <= id
            invariant
                self@ == old(self)@,
            decreases id + 1 - self.shms.len(),
        {
            self.shms.push(None);
            assert(self@ =~= old(self)@);
        }
        self.shms.set(id, Some(s));
        assert(self@ =~= old(self)@.insert(id, sv));
    }

    /// Maps the region `page` of the storage `id` for the handle `h`. A region
    /// that is not there is made, of so many words, and with it all before it,
    /// where `extend` allows it. The result is whether it is there.
    pub fn io_shm_map(&mut self, id: usize, h: usize, page: usize, words: usize, extend: bool) -> (r: bool)
        requires
            old(self).wf(),
            page < usize::MAX,
        ensures
            final(self).wf(),
            ({
                let m = old(self).shm_of(id);
                let used = ShmModel { users: m.users.insert(h), ..m };
                &&& r == (page < m.regions.len() || extend)
                &&& final(self)@ == old(self)@.insert(
                    id,
                    if extend {
                        used.extended((page + 1) as nat, words as nat)
                    } else {
                        used
                    },
                )
            }),
    {
        let mut s: Shm = self.take(id);
        let ghost m = s@;
        s.add_user(h);
        let there: bool = page < s.regions.len();
        if extend {
            s.extend(page + 1, words);
        }
        assert(s@.slots == m.slots);
        let ghost sv = s@;
        self.put(id, s);
        assert(self@ =~= old(self)@.insert(id, sv));
        there || extend
    }

    /// What a table is whose one region differs from this one's.
    proof fn lemma_region_edit(&self, id: usize, page: usize)
        requires
            self.wf(),
            self@.contains_key(id),
            page < self@[id].regions.len(),
        ensures
            forall|t: ShmTable|
                {
                    &&& t.shms@.len() == self.shms@.len()
                    &&& t.shms@ == self.shms@.update(id as int, t.shms@[id as int])
                    &&& t.shms@[id as int] is Some
                    &&& (t.shms@[id as int]->0).slots == (self.shms@[id as int]->0).slots
                    &&& (t.shms@[id as int]->0).users == (self.shms@[id as int]->0).users
                    &&& (t.shms@[id as int]->0).regions@ == (self.shms@[id as int]->0).regions@.update(
                        page as int,
                        (t.shms@[id as int]->0).regions@[page as int],
                    )
                } ==> (#[trigger] t@) == self@.insert(
                    id,
                    (ShmModel {
                        regions: self@[id].regions.update(
                            page as int,
                            (t.shms@[id as int]->0).regions@[page as int]@,
                        ),
                        ..self@[id]
                    }),
                ) && t.wf(),
    {
        assert forall|t: ShmTable|
            {
                &&& t.shms@.len() == self.shms@.len()
                &&& t.shms@ == self.shms@.update(id as int, t.shms@[id as int])
                &&& t.shms@[id as int] is Some
                &&& (t.shms@[id as int]->0).slots == (self.shms@[id as int]->0).slots
                &&& (t.shms@[id as int]->0).users == (self.shms@[id as int]->0).users
                &&& (t.shms@[id as int]->0).regions@ == (self.shms@[id as int]->0).regions@.update(
                    page as int,
                    (t.shms@[id as int]->0).regions@[page as int],
                )
            } implies (#[trigger] t@) == self@.insert(
            id,
            (ShmModel {
                regions: self@[id].regions.update(
                    page as int,
                    (t.shms@[id as int]->0).regions@[page as int]@,
                ),
                ..self@[id]
            }),
        ) && t.wf() by {
            let want = ShmModel {
                regions: self@[id].regions.update(
                    page as int,
                    (t.shms@[id as int]->0).regions@[page as int]@,
                ),
                ..self@[id]
            };
            assert((t.shms@[id as int]->0)@.regions =~= want.regions);
            assert((t.shms@[id as int]->0)@ =~= want);
            assert(t@ =~= self@.insert(id, want));
            assert(self@[id].wf());
        }
    }

    /// The words of the region `page` of the storage `id`, to be changed in
    /// place.
    pub fn region_mut(&mut self, id: usize, page: usize) -> (r: &mut Vec<u64>)
        requires
            old(self).wf(),
            old(self)@.contains_key(id),
            page < old(self)@[id].regions.len(),
        ensures
            r@ == old(self)@[id].regions[page as int],
            final(self).wf(),
            final(self)@ == old(self)@.insert(
                id,
                (ShmModel {
                    regions: old(self)@[id].regions.update(page as int, final(r)@),
                    ..old(self)@[id]
                }),
            ),
    {
        proof {
            self.lemma_region_edit(id, page);
        }
        let s: &mut Shm = self.shms[id].as_mut().unwrap();
        &mut s.regions[page]
    }

    /// Takes or gives back the locks from `ofst` on, `n` of them, for the handle
    /// `h`. A lock that another handle holds in the way is refused.
    pub fn io_shm_lock(&mut self, id: usize, h: usize, ofst: i32, n: i32, flags: i32) -> (r: i32)
        requires
            old(self).wf(),
        ensures
            final(self).wf(),
            ({
                let m = old(self).shm_of(id);
                match lock_request(flags) {
                    Some((lock, exclusive)) => if !lock_range(ofst, n) {
                        r == SQLITE_IOERR && final(self)@ == old(self)@
                    } else if lock && !m.grantable(h, ofst as int, n as int, exclusive) {
                        r == SQLITE_BUSY && final(self)@ == old(self)@.insert(id, m)
                    } else {
                        &&& r == SQLITE_OK
                        &&& final(self)@ == old(self)@.insert(
                            id,
                            m.relocked(h, ofst as int, n as int, lock, exclusive),
                        )
                    },
                    None => r == SQLITE_IOERR && final(self)@ == old(self)@,
                }
            }),
    {
        let lock: bool;
        let exclusive: bool;
        if flags == (SQLITE_SHM_LOCK | SQLITE_SHM_SHARED) {
            lock = true;
            exclusive = false;
        } else if flags == (SQLITE_SHM_LOCK | SQLITE_SHM_EXCLUSIVE) {
            lock = true;
            exclusive = true;
        } else if flags == (SQLITE_SHM_UNLOCK | SQLITE_SHM_SHARED) {
            lock = false;
            exclusive = false;
        } else if flags == (SQLITE_SHM_UNLOCK | SQLITE_SHM_EXCLUSIVE) {
            lock = false;
            exclusive = true;
        } else {
            return SQLITE_IOERR;
        }
        if ofst < 0 || n < 1 || n > SHM_NLOCK as i32 || ofst > SHM_NLOCK as i32 - n {
            return SQLITE_IOERR;
        }
        let mut s: Shm = self.take(id);
        let ghost m = s@;
        if lock && !s.can_grant(h, ofst as usize, n as usize, exclusive) {
            self.put(id, s);
            assert(self@ =~= old(self)@.insert(id, m));
            return SQLITE_BUSY;
        }
        s.relock(h, ofst as usize, n as usize, lock, exclusive);
        let ghost sv = s@;
        proof {
            lemma_relocked_wf(m, h, ofst as int, n as int, lock, exclusive);
        }
        self.put(id, s);
        assert(self@ =~= old(self)@.insert(id, sv));
        SQLITE_OK
    }

    /// The handle `h` has the memory of the storage `id` mapped no more and gives
    /// back its locks. The memory goes when no handle has it mapped, or where
    /// `delete` says so.
    pub fn io_shm_unmap(&mut self, id: usize, h: usize, delete: bool)
        requires
            old(self).wf(),
        ensures
            final(self).wf(),
            ({
                let m = old(self).shm_of(id).left(h);
                final(self)@ == if delete || m.users == Set::<usize>::empty() {
                    old(self)@.remove(id)
                } else {
                    old(self)@.insert(id, m)
                }
            }),
    {
        let mut s: Shm = self.take(id);
        let ghost m = s@;
        s.leave(h);
        let ghost sv = s@;
        proof {
            lemma_left_wf(m, h);
            if s.users@.len() > 0 {
                assert(s@.users.contains(s.users@[0]));
            } else {
                assert(s@.users =~= Set::<usize>::empty());
            }
        }
        if delete || s.users.len() == 0 {
            return;
        }
        self.put(id, s);
        assert(self@ =~= old(self)@.insert(id, sv));
    }
}

proof fn lemma_relocked_wf(m: ShmModel, h: usize, ofst: int, n: int, lock: bool, exclusive: bool)
    requires
        m.wf(),
        lock ==> m.grantable(h, ofst, n, exclusive),
        0 <= ofst,
        ofst + n <= m.slots.len(),
    ensures
        m.relocked(h, ofst, n, lock, exclusive).wf(),
{
    let after = m.relocked(h, ofst, n, lock, exclusive);
    assert forall|i: int| 0 <= i < after.slots.len() implies (#[trigger] after.slots[i]).wf() by {
        assert(m.slots[i].wf());
    }
}

proof fn lemma_left_wf(m: ShmModel, h: usize)
    requires
        m.wf(),
    ensures
        m.left(h).wf(),
{
    let after = m.left(h);
    assert forall|i: int| 0 <= i < after.slots.len() implies (#[trigger] after.slots[i]).wf() by {
        assert(m.slots[i].wf());
    }
}

/// While a handle holds a lock alone, no request of another handle for it is
/// granted.
pub proof fn lemma_exclusive_excludes(m: ShmModel, h: usize, g: usize, i: int, ofst: int, n: int, exclusive: bool)
    requires
        m.wf(),
        g != h,
        0 <= i < m.slots.len(),
        m.slots[i].exclusive == Some(h),
        ofst <= i < ofst + n,
    ensures
        !m.grantable(g, ofst, n, exclusive),
{
    assert(!m.slots[i].shareable(g));
}

/// Giving a lock back undoes taking it.
pub proof fn lemma_unlock_undoes_lock(m: ShmModel, h: usize, ofst: int, n: int)
    requires
        m.wf(),
        0 <= ofst,
        ofst + n <= m.slots.len(),
        forall|i: int| ofst <= i < ofst + n ==> (#[trigger] m.slots[i]).exclusive is None,
        m.grantable(h, ofst, n, true),
    ensures
        m.relocked(h, ofst, n, true, true).relocked(h, ofst, n, false, true) == m,
{
    let back = m.relocked(h, ofst, n, true, true).relocked(h, ofst, n, false, true);
    assert forall|i: int| 0 <= i < m.slots.len() implies #[trigger] back.slots[i] == m.slots[i] by {
        assert(back.slots[i] =~= m.slots[i]);
    }
    assert(back.slots =~= m.slots);
}

} // verus!
