//! The page cache proper: a bounded pool of resident ("shadow") page slots
//! backed by a cold-storage region.
//!
//! Every page the cache knows is either resident in a slot or cold, with its
//! bytes in the region only. Resident pages that nobody holds are linked in
//! recency order; when the pool is full the least recently used of them is
//! flushed to the region and gives up its slot.

use crate::bytes::{zeroed, zeros};
use crate::pcache::laws::{in_pool, lemma_when_a_fetch_succeeds, slot_to_be_had};
use crate::pcache::lru::{before, LruList};
use crate::pcache::region::{copy_effect, truncate_effect, write_effect, Region, RegionModel};
use crate::tables::keys_from;
use std::collections::HashMap;
use vstd::prelude::*;

verus! {

/// The pool size before the engine asks for another one.
pub const DEFAULT_SHADOW_CAPACITY: u32 = 100;

/// A slot of the pool: the page it caches and whether somebody holds it.
pub struct ShadowSlot {
    key: u32,
    live: bool,
    pinned: bool,
    page: Vec<u8>,
    extra: Vec<u8>,
}

/// Where a known page lives.
#[derive(Copy, Clone, Debug, PartialEq, Eq, Structural)]
pub enum LookupEntry {
    /// In the pool, in the slot of this index.
    Shadow(usize),
    /// In the region only.
    Cold,
}

/// A known page, as the model of the cache sees it.
pub enum PageState {
    Shadow { slot: usize, pinned: bool, page: Seq<u8>, extra: Seq<u8> },
    Cold,
}

/// The model of a cache: its pages by key, the keys of the unpinned resident
/// pages from the most to the least recently used one, and the pool size.
#[verifier::ext_equal]
pub struct CacheModel {
    pub entries: Map<u32, PageState>,
    pub lru: Seq<u32>,
    pub capacity: u32,
}

/// The region offset of page `key`.
pub open spec fn page_offset(key: u32, sz_page: i32) -> u32 {
    (key * sz_page) as u32
}

/// The region offset of page `key` can be computed.
pub open spec fn addressable(key: u32, sz_page: i32) -> bool {
    key * sz_page <= u32::MAX
}

/// What dropping the pages at or above `limit` does to the region. A limit
/// without an offset is above every offset, so nothing there is dropped.
pub open spec fn cut_effect<R: RegionModel>(pre: R, post: R, limit: u32, sz_page: i32) -> bool {
    if addressable(limit, sz_page) {
        truncate_effect(pre, post, page_offset(limit, sz_page))
    } else {
        post == pre
    }
}

/// `page` is what a slot shows after loading page `key` out of region `r`:
/// zeros where nothing was written or the read failed, else the bytes there.
pub open spec fn loaded<R: RegionModel>(r: R, offset: u32, len: nat, page: Seq<u8>) -> bool {
    &&& page.len() == len
    &&& page == zeros(len) || r.written(offset) && page == r.bytes(offset, len)
    &&& !r.written(offset) ==> page == zeros(len)
    &&& r.written(offset) && r.serves(offset, len) ==> page == r.bytes(offset, len)
}

impl CacheModel {
    /// Page `key` is resident.
    pub open spec fn resident(self, key: u32) -> bool {
        self.entries.contains_key(key) && self.entries[key] is Shadow
    }

    /// Page `key` is known and its bytes are in the region only.
    pub open spec fn cold(self, key: u32) -> bool {
        self.entries.contains_key(key) && self.entries[key] is Cold
    }

    /// Page `key` is resident and held.
    pub open spec fn pinned(self, key: u32) -> bool {
        self.resident(key) && self.entries[key]->pinned
    }

    /// The keys of the resident pages.
    pub open spec fn resident_keys(self) -> Set<u32> {
        self.entries.dom().filter(|k: u32| self.entries[k] is Shadow)
    }

    /// The pool holds as many pages as it may.
    pub open spec fn full(self) -> bool {
        self.resident_keys().len() >= self.capacity
    }

    /// Every resident page sits in a slot of its own, and the recency list
    /// names each unpinned resident page once.
    pub open spec fn wf(self) -> bool {
        &&& self.entries.dom().finite()
        &&& self.lru.no_duplicates()
        &&& forall|k: u32| #[trigger]
            self.lru.contains(k) <==> self.resident(k) && !self.pinned(k)
        &&& forall|k1: u32, k2: u32|
            self.resident(k1) && self.resident(k2) && k1 != k2 ==> #[trigger]
            self.entries[k1]->slot != #[trigger] self.entries[k2]->slot
    }

    /// The least recently used page loses its slot and is cold from now on.
    pub open spec fn evicted(self) -> CacheModel {
        CacheModel {
            entries: self.entries.insert(self.lru.last(), PageState::Cold),
            lru: self.lru.drop_last(),
            ..self
        }
    }

    /// The resident page `key` is held, and so leaves the recency list.
    pub open spec fn held(self, key: u32) -> CacheModel {
        let e = self.entries[key];
        CacheModel {
            entries: self.entries.insert(
                key,
                PageState::Shadow { slot: e->slot, pinned: true, page: e->page, extra: e->extra },
            ),
            lru: if self.pinned(key) {
                self.lru
            } else {
                self.lru.remove(self.lru.index_of(key))
            },
            ..self
        }
    }

    /// The resident page `key` is let go: it becomes the most recently used.
    pub open spec fn let_go(self, key: u32) -> CacheModel {
        let e = self.entries[key];
        CacheModel {
            entries: self.entries.insert(
                key,
                PageState::Shadow { slot: e->slot, pinned: false, page: e->page, extra: e->extra },
            ),
            lru: seq![key] + self.lru,
            ..self
        }
    }

    /// Page `key` takes the slot `slot`, held, with the given bytes.
    pub open spec fn loaded(self, key: u32, slot: usize, page: Seq<u8>, extra: Seq<u8>) -> CacheModel {
        CacheModel {
            entries: self.entries.insert(
                key,
                PageState::Shadow { slot, pinned: true, page, extra },
            ),
            ..self
        }
    }

    /// Page `key` is no longer known.
    pub open spec fn forgotten(self, key: u32) -> CacheModel {
        CacheModel {
            entries: self.entries.remove(key),
            lru: if self.resident(key) && !self.pinned(key) {
                self.lru.remove(self.lru.index_of(key))
            } else {
                self.lru
            },
            ..self
        }
    }

    /// Page `old_key` is known as `new_key` from now on; what was known as
    /// `new_key` before is not any more.
    pub open spec fn rekeyed(self, old_key: u32, new_key: u32) -> CacheModel {
        if old_key == new_key {
            self
        } else {
            let m = self.forgotten(new_key);
            CacheModel {
                entries: m.entries.remove(old_key).insert(new_key, self.entries[old_key]),
                lru: m.lru.map_values(
                    |k: u32|
                        if k == old_key {
                            new_key
                        } else {
                            k
                        },
                ),
                ..self
            }
        }
    }

    /// Only the pages below `limit` are still known.
    pub open spec fn truncated(self, limit: u32) -> CacheModel {
        CacheModel {
            entries: self.entries.restrict(self.entries.dom().filter(|k: u32| k < limit)),
            lru: self.lru.filter(|k: u32| k < limit),
            ..self
        }
    }

    /// The `n` least recently used pages lose their slots.
    pub open spec fn evicted_times(self, n: nat) -> CacheModel
        decreases n,
    {
        if n == 0 {
            self
        } else {
            self.evicted_times((n - 1) as nat).evicted()
        }
    }

    /// Room was made for one more page, if any could be made.
    pub open spec fn room_made(self) -> CacheModel {
        if self.full() && self.lru.len() > 0 {
            self.evicted()
        } else {
            self
        }
    }

    /// A fetch of page `key` gives nothing: the page is unknown and must not
    /// be created, or every slot is held and the pool must not grow.
    pub open spec fn refuses(self, key: u32, create_flag: i32) -> bool {
        &&& !self.resident(key)
        &&& {
            ||| !self.cold(key) && create_flag == 0
            ||| self.full() && self.lru.len() == 0 && create_flag != 2
        }
    }

    /// Page `key` sits in slot `slot`.
    pub open spec fn holds(self, slot: usize, key: u32) -> bool {
        self.resident(key) && self.entries[key]->slot == slot
    }

    /// Some page sits in slot `slot`.
    pub open spec fn occupied(self, slot: usize) -> bool {
        exists|key: u32| self.holds(slot, key)
    }

    /// The page in slot `slot`.
    pub open spec fn key_of(self, slot: usize) -> u32 {
        choose|key: u32| self.holds(slot, key)
    }

    /// The bytes of the resident page `key` become `page`.
    pub open spec fn edited(self, key: u32, page: Seq<u8>) -> CacheModel {
        let e = self.entries[key];
        CacheModel {
            entries: self.entries.insert(
                key,
                PageState::Shadow { slot: e->slot, pinned: e->pinned, page, extra: e->extra },
            ),
            ..self
        }
    }

    /// The engine's own bytes beside the resident page `key` become `extra`.
    pub open spec fn extra_edited(self, key: u32, extra: Seq<u8>) -> CacheModel {
        let e = self.entries[key];
        CacheModel {
            entries: self.entries.insert(
                key,
                PageState::Shadow { slot: e->slot, pinned: e->pinned, page: e->page, extra },
            ),
            ..self
        }
    }

    /// The pool size becomes `n`, or none where `n` is negative.
    pub open spec fn resized(self, n: i32) -> CacheModel {
        CacheModel {
            capacity: if n < 0 {
                0
            } else {
                n as u32
            },
            ..self
        }
    }

    /// How many pages have to leave the pool, as far as they can.
    pub open spec fn surplus(self) -> nat {
        let over = self.resident_keys().len() - self.capacity;
        if over <= 0 {
            0
        } else if over <= self.lru.len() {
            over as nat
        } else {
            self.lru.len()
        }
    }

    /// No resident page uses the slot `slot`.
    pub open spec fn slot_free(self, slot: usize) -> bool {
        forall|k: u32| #[trigger] self.resident(k) ==> self.entries[k]->slot != slot
    }
}

/// The page cache. One per pager.
pub struct ShadowCache<R: Region> {
    sz_page: i32,
    sz_extra: i32,
    purgeable: bool,
    shadow_capacity: u32,
    lookup: HashMap<u32, LookupEntry>,
    slots: Vec<ShadowSlot>,
    free: Vec<usize>,
    lru: LruList,
    shadow_count: u32,
    region: R,
}

/// The bytes of page `key` went from the pool `m` to the region.
pub open spec fn flushed<R: RegionModel>(pre: R, post: R, m: CacheModel, key: u32, sz_page: i32) -> bool {
    write_effect(pre, post, page_offset(key, sz_page), m.entries[key]->page)
}

/// The bytes of the `n` least recently used pages of `m` went to the region,
/// the least recently used first.
pub open spec fn flushed_times<R: RegionModel>(
    pre: R,
    post: R,
    m: CacheModel,
    n: nat,
    sz_page: i32,
) -> bool
    decreases n,
{
    if n == 0 {
        post == pre
    } else {
        let before = m.evicted_times((n - 1) as nat);
        exists|mid: R|
            flushed_times(pre, mid, m, (n - 1) as nat, sz_page) && #[trigger] flushed(
                mid,
                post,
                before,
                before.lru.last(),
                sz_page,
            )
    }
}

/// One more page went to the region.
proof fn lemma_flushed_more<R: RegionModel>(
    pre: R,
    mid: R,
    post: R,
    m: CacheModel,
    n: nat,
    sz_page: i32,
)
    requires
        flushed_times(pre, mid, m, n, sz_page),
        flushed(mid, post, m.evicted_times(n), m.evicted_times(n).lru.last(), sz_page),
    ensures
        flushed_times(pre, post, m, n + 1, sz_page),
{
    let last = m.evicted_times(((n + 1) - 1) as nat).lru.last();
    assert(flushed(mid, post, m.evicted_times(((n + 1) - 1) as nat), last, sz_page));
}

/// What making room in the pool `m` did to the region.
pub open spec fn room_effect<R: RegionModel>(pre: R, post: R, m: CacheModel, sz_page: i32) -> bool {
    if m.full() && m.lru.len() > 0 {
        flushed(pre, post, m, m.lru.last(), sz_page)
    } else {
        post == pre
    }
}

/// Fetching page `key` gave the slot `slot` and made `n` and `r1` of `m` and `r0`.
/// A resident page is held as it is. Any other one goes to a free slot, where
/// room was made: a cold page is loaded, and an unknown one is zeros.
pub open spec fn fetched<R: RegionModel>(
    m: CacheModel,
    r0: R,
    key: u32,
    slot: usize,
    n: CacheModel,
    r1: R,
    sz_page: i32,
    sz_extra: i32,
) -> bool {
    if m.resident(key) {
        slot == m.entries[key]->slot && n == m.held(key) && r1 == r0
    } else {
        let page = n.entries[key]->page;
        &&& m.room_made().slot_free(slot)
        &&& n == m.room_made().loaded(key, slot, page, zeros(sz_extra as nat))
        &&& room_effect(r0, r1, m, sz_page)
        &&& m.cold(key) ==> loaded(r1, page_offset(key, sz_page), sz_page as nat, page)
        &&& !m.cold(key) ==> page == zeros(sz_page as nat)
    }
}

/// A filter that lets every item through changes nothing.
proof fn lemma_filter_all(s: Seq<u32>, p: spec_fn(u32) -> bool)
    requires
        forall|j: int| 0 <= j < s.len() ==> p(#[trigger] s[j]),
    ensures
        s.filter(p) == s,
    decreases s.len(),
{
    reveal(Seq::filter);
    if s.len() > 0 {
        lemma_filter_all(s.drop_last(), p);
        assert(s.drop_last().push(s.last()) =~= s);
    }
}

/// Filters that agree on the items of a sequence give the same sequence.
proof fn lemma_filter_same(s: Seq<u32>, p: spec_fn(u32) -> bool, q: spec_fn(u32) -> bool)
    requires
        forall|j: int| 0 <= j < s.len() ==> p(#[trigger] s[j]) == q(s[j]),
    ensures
        s.filter(p) == s.filter(q),
    decreases s.len(),
{
    reveal(Seq::filter);
    if s.len() > 0 {
        lemma_filter_same(s.drop_last(), p, q);
    }
}

/// Filtering one more item out is taking it out of what the filter left.
proof fn lemma_filter_one_less(
    s: Seq<u32>,
    p: spec_fn(u32) -> bool,
    q: spec_fn(u32) -> bool,
    key: u32,
)
    requires
        s.no_duplicates(),
        forall|k: u32| #[trigger] q(k) == (p(k) && k != key),
    ensures
        s.filter(p).no_duplicates(),
        s.filter(p).contains(key) <==> s.contains(key) && p(key),
        s.filter(q) == if s.contains(key) && p(key) {
            s.filter(p).remove(s.filter(p).index_of(key))
        } else {
            s.filter(p)
        },
    decreases s.len(),
{
    reveal(Seq::filter);
    if s.len() > 0 {
        let t = s.drop_last();
        let last = s.last();
        lemma_filter_one_less(t, p, q, key);
        assert(s =~= t.push(last));
        let f = t.filter(p);
        assert(!f.contains(last)) by {
            if f.contains(last) {
                t.lemma_filter_contains_rev(p, last);
            }
        }
        assert(s.contains(key) <==> t.contains(key) || key == last) by {
            if t.contains(key) {
                let j = choose|j: int| 0 <= j < t.len() && t[j] == key;
                assert(s[j] == key);
            }
            assert(s[s.len() - 1] == last);
        }
        if p(last) {
            let g = s.filter(p);
            assert(g == f.push(last));
            assert(g.no_duplicates());
            if f.contains(key) {
                let j = f.index_of(key);
                assert(g[j] == key);
                assert(g.index_of(key) == j);
                assert(g.remove(j) =~= f.remove(j).push(last));
            } else if key == last {
                assert(g[f.len() as int] == key);
                assert(g.index_of(key) == f.len());
                assert(g.remove(f.len() as int) =~= f);
            } else {
                assert(!g.contains(key));
            }
        }
    }
}

/// What a prefix one longer contains.
proof fn lemma_prefix_contains(s: Seq<u32>, n: int, k: u32)
    requires
        0 <= n < s.len(),
    ensures
        s.subrange(0, n + 1).contains(k) <==> s.subrange(0, n).contains(k) || k == s[n],
{
    let a = s.subrange(0, n);
    let b = s.subrange(0, n + 1);
    if b.contains(k) {
        let j = choose|j: int| 0 <= j < b.len() && b[j] == k;
        assert(j < n ==> a[j] == k);
    }
    if a.contains(k) {
        let j = choose|j: int| 0 <= j < a.len() && a[j] == k;
        assert(b[j] == k);
    }
    assert(b[n] == s[n]);
}

/// The keys in the slots that `order` lists, in that order.
spec fn keys_in(slots: Seq<ShadowSlot>, order: Seq<usize>) -> Seq<u32> {
    Seq::new(order.len(), |j: int| slots[order[j] as int].key)
}

/// Leaving a slot out of the order leaves its key out of the keys.
proof fn lemma_keys_remove(slots: Seq<ShadowSlot>, order: Seq<usize>, slot: usize)
    requires
        order.contains(slot),
        keys_in(slots, order).no_duplicates(),
    ensures
        keys_in(slots, order).contains(slots[slot as int].key),
        keys_in(slots, order.remove(order.index_of(slot))) == keys_in(slots, order).remove(
            keys_in(slots, order).index_of(slots[slot as int].key),
        ),
{
    let keys = keys_in(slots, order);
    let i = order.index_of(slot);
    assert(keys[i] == slots[slot as int].key);
    assert(keys.index_of(slots[slot as int].key) == i);
    assert(keys_in(slots, order.remove(i)) =~= keys.remove(i));
}

/// Leaving an item out of a sequence without repetitions leaves the others in.
proof fn lemma_remove_contains(order: Seq<usize>, slot: usize)
    requires
        order.no_duplicates(),
        order.contains(slot),
    ensures
        forall|i: usize| #[trigger]
            order.remove(order.index_of(slot)).contains(i) <==> order.contains(i) && i != slot,
{
    let at = order.index_of(slot);
    let rest = order.remove(at);
    assert forall|i: usize| #[trigger] rest.contains(i) <==> order.contains(i) && i != slot by {
        if rest.contains(i) {
            let j = choose|j: int| 0 <= j < rest.len() && rest[j] == i;
            assert(order[if j < at {
                j
            } else {
                j + 1
            }] == i);
        }
        if order.contains(i) && i != slot {
            let j = choose|j: int| 0 <= j < order.len() && order[j] == i;
            assert(rest[if j < at {
                j
            } else {
                j - 1
            }] == i);
        }
    }
}

/// What the order's keys are depends on the keys in the slots alone.
proof fn lemma_keys_same(slots: Seq<ShadowSlot>, order: Seq<usize>)
    requires
        forall|j: int| 0 <= j < order.len() ==> #[trigger] order[j] < slots.len(),
    ensures
        forall|slots2: Seq<ShadowSlot>|
            slots2.len() == slots.len() && (forall|j: int|
                0 <= j < slots.len() ==> (#[trigger] slots2[j]).key == slots[j].key)
                ==> #[trigger] keys_in(slots2, order) == keys_in(slots, order),
{
    assert forall|slots2: Seq<ShadowSlot>|
        slots2.len() == slots.len() && (forall|j: int|
            0 <= j < slots.len() ==> (#[trigger] slots2[j]).key == slots[j].key) implies
        #[trigger] keys_in(slots2, order) == keys_in(slots, order) by {
        assert(keys_in(slots2, order) =~= keys_in(slots, order));
    }
}

impl<R: Region> View for ShadowCache<R> {
    type V = CacheModel;

    closed spec fn view(&self) -> CacheModel {
        CacheModel {
            entries: self.lookup@.map_values(|e: LookupEntry| state_of(self.slots@, e)),
            lru: keys_in(self.slots@, self.lru@),
            capacity: self.shadow_capacity,
        }
    }
}

/// What the entry `e` stands for, given the slots.
spec fn state_of(slots: Seq<ShadowSlot>, e: LookupEntry) -> PageState {
    match e {
        LookupEntry::Shadow(i) => PageState::Shadow {
            slot: i,
            pinned: slots[i as int].pinned,
            page: slots[i as int].page@,
            extra: slots[i as int].extra@,
        },
        LookupEntry::Cold => PageState::Cold,
    }
}

impl<R: Region> ShadowCache<R> {
    /// The page size.
    pub closed spec fn sz_page(&self) -> i32 {
        self.sz_page
    }

    /// The size of the engine's own area beside each page.
    pub closed spec fn sz_extra(&self) -> i32 {
        self.sz_extra
    }

    /// The cold storage.
    pub closed spec fn region(&self) -> R {
        self.region
    }

    /// Whether the engine allowed the cache to drop pages under pressure.
    pub closed spec fn purgeable(&self) -> bool {
        self.purgeable
    }

    spec fn lookup_ok(&self) -> bool {
        forall|k: u32|
            (#[trigger] self.lookup@.contains_key(k)) ==> match self.lookup@[k] {
                LookupEntry::Shadow(i) => {
                    &&& i < self.slots@.len()
                    &&& self.slots@[i as int].live
                    &&& self.slots@[i as int].key == k
                    &&& !self.slots@[i as int].pinned ==> addressable(k, self.sz_page)
                },
                LookupEntry::Cold => addressable(k, self.sz_page),
            }
    }

    spec fn slots_ok(&self) -> bool {
        forall|i: int|
            0 <= i < self.slots@.len() && (#[trigger] self.slots@[i]).live ==> {
                &&& self.lookup@.contains_key(self.slots@[i].key)
                &&& self.lookup@[self.slots@[i].key] == LookupEntry::Shadow(i as usize)
                &&& self.slots@[i].page@.len() == self.sz_page
                &&& self.slots@[i].extra@.len() == self.sz_extra
            }
    }

    spec fn lru_ok(&self) -> bool {
        &&& self.lru.wf()
        &&& self.lru.capacity() == self.slots@.len()
        &&& forall|i: usize| #[trigger]
            self.lru@.contains(i) <==> i < self.slots@.len() && self.slots@[i as int].live
                && !self.slots@[i as int].pinned
    }

    spec fn free_ok(&self) -> bool {
        &&& self.free@.no_duplicates()
        &&& forall|j: int|
            0 <= j < self.free@.len() ==> (#[trigger] self.free@[j]) < self.slots@.len()
                && !self.slots@[self.free@[j] as int].live
    }

    spec fn shadow_keys(&self) -> Set<u32> {
        self.lookup@.dom().filter(|k: u32| self.lookup@[k] is Shadow)
    }

    /// The cache's invariant.
    pub closed spec fn wf(&self) -> bool {
        &&& 0 <= self.sz_page
        &&& 0 <= self.sz_extra
        &&& self.region.inv()
        &&& self.lookup_ok()
        &&& self.slots_ok()
        &&& self.lru_ok()
        &&& self.free_ok()
        &&& self.shadow_count == self.shadow_keys().len()
    }

    /// The cache's own counter agrees with the model, whose parts fit together.
    pub proof fn lemma_model(&self)
        requires
            self.wf(),
        ensures
            self@.wf(),
            self@.resident_keys().finite(),
            forall|k: u32| #[trigger]
                self@.resident(k) ==> self@.entries[k]->page.len() == self.sz_page()
                    && self@.entries[k]->extra.len() == self.sz_extra(),
    {
        broadcast use vstd::std_specs::hash::group_hash_axioms;

        let m = self@;
        assert(m.entries.dom() =~= self.lookup@.dom());
        assert(m.resident_keys() =~= self.shadow_keys());
        self.lru.lemma_wf();
        assert forall|i: int, j: int|
            0 <= i < m.lru.len() && 0 <= j < m.lru.len() && i != j implies m.lru[i]
            != m.lru[j] by {
            assert(self.lru@.contains(self.lru@[i]));
            assert(self.lru@.contains(self.lru@[j]));
        }
        assert forall|k: u32| #[trigger] m.lru.contains(k) <==> m.resident(k) && !m.pinned(k) by {
            if m.lru.contains(k) {
                let i = choose|i: int| 0 <= i < m.lru.len() && m.lru[i] == k;
                assert(self.lru@.contains(self.lru@[i]));
            }
            if m.resident(k) && !m.pinned(k) {
                let s = self.lookup@[k]->Shadow_0;
                assert(self.lookup@.contains_key(k));
                assert(self.lru@.contains(s));
                let i = choose|i: int| 0 <= i < self.lru@.len() && self.lru@[i] == s;
                assert(m.lru[i] == k);
            }
        }
        assert forall|k1: u32, k2: u32|
            m.resident(k1) && m.resident(k2) && k1 != k2 implies #[trigger] m.entries[k1]->slot
            != #[trigger] m.entries[k2]->slot by {
            assert(self.lookup@.contains_key(k1) && self.lookup@.contains_key(k2));
        }
        assert forall|k: u32| #[trigger] m.resident(k) implies m.entries[k]->page.len()
            == self.sz_page() && m.entries[k]->extra.len() == self.sz_extra() by {
            assert(self.lookup@.contains_key(k));
        }
    }

    /// A cache of pages of `sz_page` bytes, each with `sz_extra` bytes of the
    /// engine's own, that knows no page yet.
    pub fn new(sz_page: i32, sz_extra: i32, purgeable: bool, region: R) -> (r: Self)
        requires
            0 <= sz_page,
            0 <= sz_extra,
            region.inv(),
        ensures
            r.wf(),
            r.sz_page() == sz_page,
            r.sz_extra() == sz_extra,
            r.purgeable() == purgeable,
            r.region() == region,
            r@.entries == Map::<u32, PageState>::empty(),
            r@.lru == Seq::<u32>::empty(),
            r@.capacity == DEFAULT_SHADOW_CAPACITY,
    {
        broadcast use vstd::std_specs::hash::group_hash_axioms;

        let r = ShadowCache {
            sz_page,
            sz_extra,
            purgeable,
            shadow_capacity: DEFAULT_SHADOW_CAPACITY,
            lookup: HashMap::new(),
            slots: Vec::new(),
            free: Vec::new(),
            lru: LruList::new(),
            shadow_count: 0,
            region,
        };
        proof {
            assert(r.shadow_keys() =~= Set::empty());
            assert(r@.entries =~= Map::<u32, PageState>::empty());
            assert(r@.lru =~= Seq::<u32>::empty());
        }
        r
    }

    /// How many pages the cache knows.
    pub fn page_count(&self) -> (r: i32)
        requires
            self.wf(),
        ensures
            r == self@.entries.dom().len() as usize as i32,
            self@.entries.dom().len() <= i32::MAX ==> r == self@.entries.dom().len(),
    {
        broadcast use vstd::std_specs::hash::group_hash_axioms;

        assert(self@.entries.dom() =~= self.lookup@.dom());
        self.lookup.len() as i32
    }

    /// The configured pool size.
    pub fn shadow_capacity(&self) -> (r: u32)
        ensures
            r == self@.capacity,
    {
        self.shadow_capacity
    }

    /// How many pages are resident.
    pub fn shadow_count(&self) -> (r: u32)
        requires
            self.wf(),
        ensures
            r == self@.resident_keys().len(),
    {
        assert(self@.resident_keys() =~= self.shadow_keys());
        self.shadow_count
    }

    /// Where page `key` lives, or `None` if it is not known.
    pub fn lookup(&self, key: u32) -> (r: Option<LookupEntry>)
        requires
            self.wf(),
        ensures
            match r {
                None => !self@.entries.contains_key(key),
                Some(LookupEntry::Shadow(s)) => self@.resident(key) && self@.entries[key]->slot
                    == s,
                Some(LookupEntry::Cold) => self@.cold(key),
            },
    {
        broadcast use vstd::std_specs::hash::group_hash_axioms;

        match self.lookup.get(&key) {
            Some(e) => Some(*e),
            None => None,
        }
    }

    fn has_offset(&self, key: u32) -> (r: bool)
        requires
            0 <= self.sz_page,
        ensures
            r == addressable(key, self.sz_page),
    {
        let sz: u64 = self.sz_page as u64;
        assert(0 <= key * self.sz_page <= 0xffff_ffff * 0x7fff_ffff) by (nonlinear_arith)
            requires
                0 <= key <= 0xffff_ffff,
                0 <= self.sz_page <= 0x7fff_ffff,
        ;
        key as u64 * sz <= u32::MAX as u64
    }

    fn offset_of(&self, key: u32) -> (r: u32)
        requires
            0 <= self.sz_page,
            addressable(key, self.sz_page),
        ensures
            r == page_offset(key, self.sz_page),
    {
        let sz: u32 = self.sz_page as u32;
        assert(0 <= key * self.sz_page) by (nonlinear_arith)
            requires
                0 <= key,
                0 <= self.sz_page,
        ;
        key * sz
    }

    /// The same cache, but for what it holds.
    pub open spec fn same_shape(&self, other: &Self) -> bool {
        &&& self.sz_page() == other.sz_page()
        &&& self.sz_extra() == other.sz_extra()
        &&& self.purgeable() == other.purgeable()
    }

    /// The unpinned pages and the cold ones have offsets.
    pub proof fn lemma_offsets(&self, key: u32)
        requires
            self.wf(),
            self@.cold(key) || self@.resident(key) && !self@.pinned(key),
        ensures
            addressable(key, self.sz_page()),
    {
        assert(self.lookup@.contains_key(key));
    }

    /// A slot that holds a page holds only that one.
    pub proof fn lemma_key_of(&self, slot: usize)
        requires
            self.wf(),
            self@.occupied(slot),
        ensures
            self@.holds(slot, self@.key_of(slot)),
            forall|k: u32| self@.holds(slot, k) ==> k == self@.key_of(slot),
    {
        self.lemma_model();
    }

    proof fn lemma_slot(&self, slot: usize)
        requires
            self.wf(),
            self@.occupied(slot),
        ensures
            slot < self.slots@.len(),
            self.slots@[slot as int].live,
            self.slots@[slot as int].key == self@.key_of(slot),
            self.slots@[slot as int].pinned == self@.pinned(self@.key_of(slot)),
            self.slots@[slot as int].page@ == self@.entries[self@.key_of(slot)]->page,
            self.slots@[slot as int].extra@ == self@.entries[self@.key_of(slot)]->extra,
            self.slots@[slot as int].page@.len() == self.sz_page,
            self@.holds(slot, self@.key_of(slot)),
    {
        self.lemma_key_of(slot);
        assert(self.lookup@.contains_key(self@.key_of(slot)));
    }

    /// The page in slot `slot`.
    pub fn key_of(&self, slot: usize) -> (r: u32)
        requires
            self.wf(),
            self@.occupied(slot),
        ensures
            r == self@.key_of(slot),
            self@.holds(slot, r),
    {
        proof {
            self.lemma_slot(slot);
        }
        self.slots[slot].key
    }

    /// The bytes of the page in slot `slot`.
    pub fn page_bytes(&self, slot: usize) -> (r: &[u8])
        requires
            self.wf(),
            self@.occupied(slot),
        ensures
            r@ == self@.entries[self@.key_of(slot)]->page,
            r@.len() == self.sz_page(),
    {
        proof {
            self.lemma_slot(slot);
        }
        self.slots[slot].page.as_slice()
    }

    /// The bytes of the page in slot `slot`, to be changed in place.
    pub fn page_bytes_mut(&mut self, slot: usize) -> (r: &mut [u8])
        requires
            old(self).wf(),
            old(self)@.occupied(slot),
        ensures
            r@ == old(self)@.entries[old(self)@.key_of(slot)]->page,
            r@.len() == old(self).sz_page(),
            final(r)@.len() == r@.len() ==> {
                &&& final(self).wf()
                &&& final(self).same_shape(old(self))
                &&& final(self).region() == old(self).region()
                &&& final(self)@ == old(self)@.edited(old(self)@.key_of(slot), final(r)@)
            },
    {
        proof {
            self.lemma_slot(slot);
            self.lru.lemma_wf();
            lemma_keys_same(self.slots@, self.lru@);
        }
        self.slots[slot].page.as_mut_slice()
    }

    /// Demotes the least recently used unpinned page: its bytes go to the
    /// region and its slot is free again. `false` if every slot is held.
    fn evict_one(&mut self) -> (r: bool)
        requires
            old(self).wf(),
        ensures
            final(self).wf(),
            final(self).same_shape(old(self)),
            r == (old(self)@.lru.len() > 0),
            !r ==> *final(self) == *old(self),
            r ==> {
                &&& final(self)@ == old(self)@.evicted()
                &&& flushed(
                    old(self).region(),
                    final(self).region(),
                    old(self)@,
                    old(self)@.lru.last(),
                    old(self).sz_page(),
                )
                &&& final(self)@.resident_keys().len() + 1 == old(self)@.resident_keys().len()
            },
    {
        broadcast use vstd::std_specs::hash::group_hash_axioms;

        let victim: usize = match self.lru.tail() {
            Some(v) => v,
            None => {
                return false;
            },
        };
        proof {
            self.lemma_model();
            self.lru.lemma_wf();
            assert(self.lru@.contains(victim));
            assert(self.lru@.index_of(victim) == self.lru@.len() - 1);
        }
        let key: u32 = self.slots[victim].key;
        assert(self.lookup@.contains_key(key));
        assert(self@.lru.last() == key);
        assert(self@.resident(key));
        let offset: u32 = self.offset_of(key);
        let _ = self.region.write(offset, self.slots[victim].page.as_slice());
        self.lru.remove(victim);
        self.lookup.insert(key, LookupEntry::Cold);
        self.slots[victim].live = false;
        self.free.push(victim);
        proof {
            assert(self.shadow_keys() =~= old(self).shadow_keys().remove(key));
            assert(old(self).shadow_keys().contains(key));
            assert(old(self)@.resident_keys() =~= old(self).shadow_keys());
        }
        self.shadow_count = self.shadow_count - 1;
        proof {
            assert(self@.entries =~= old(self)@.entries.insert(key, PageState::Cold)) by {
                assert forall|k: u32| k != key && self.lookup@.contains_key(k) implies
                    #[trigger] self@.entries[k] == old(self)@.entries[k] by {
                    assert(old(self).lookup@.contains_key(k));
                }
            }
            assert(self.lru@ =~= old(self).lru@.drop_last());
            assert(self@.lru =~= old(self)@.lru.drop_last());
            assert(self.lru_ok()) by {
                assert forall|i: usize| #[trigger]
                    self.lru@.contains(i) <==> i < self.slots@.len() && self.slots@[i as int].live
                        && !self.slots@[i as int].pinned by {
                    let o = old(self).lru@;
                    if self.lru@.contains(i) {
                        let j = choose|j: int| 0 <= j < self.lru@.len() && self.lru@[j] == i;
                        assert(o[j] == i);
                        assert(o.contains(i));
                    } else if o.contains(i) {
                        let j = choose|j: int| 0 <= j < o.len() && o[j] == i;
                        assert(j < o.len() - 1 ==> self.lru@[j] == i);
                    }
                }
            }
            assert(self@.resident_keys() =~= self.shadow_keys());
            assert(self.slots_ok()) by {
                assert forall|i: int| 0 <= i < self.slots@.len() && (#[trigger] self.slots@[i]).live
                    implies self.lookup@.contains_key(self.slots@[i].key) && self.lookup@[self.slots@[i].key]
                    == LookupEntry::Shadow(i as usize) && self.slots@[i].page@.len()
                    == self.sz_page && self.slots@[i].extra@.len() == self.sz_extra by {
                    assert(old(self).slots@[i].live);
                    assert(i < self.slots.len());
                }
            }
            assert(self.free_ok()) by {
                assert forall|j: int| 0 <= j < self.free@.len() implies (#[trigger] self.free@[j])
                    < self.slots@.len() && !self.slots@[self.free@[j] as int].live by {
                    if j < old(self).free@.len() {
                        assert(old(self).free@[j] == self.free@[j]);
                    }
                }
            }
        }
        true
    }

    /// The engine's own bytes beside the page in slot `slot`, to be changed in
    /// place.
    pub fn extra_bytes_mut(&mut self, slot: usize) -> (r: &mut [u8])
        requires
            old(self).wf(),
            old(self)@.occupied(slot),
        ensures
            r@ == old(self)@.entries[old(self)@.key_of(slot)]->extra,
            r@.len() == old(self).sz_extra(),
            final(r)@.len() == r@.len() ==> {
                &&& final(self).wf()
                &&& final(self).same_shape(old(self))
                &&& final(self).region() == old(self).region()
                &&& final(self)@ == old(self)@.extra_edited(old(self)@.key_of(slot), final(r)@)
            },
    {
        proof {
            self.lemma_slot(slot);
            self.lru.lemma_wf();
            lemma_keys_same(self.slots@, self.lru@);
        }
        self.slots[slot].extra.as_mut_slice()
    }

    /// Holds the resident page `key`, in slot `slot`.
    fn hold(&mut self, key: u32, slot: usize)
        requires
            old(self).wf(),
            old(self)@.holds(slot, key),
        ensures
            final(self).wf(),
            final(self).same_shape(old(self)),
            final(self).region() == old(self).region(),
            final(self)@ == old(self)@.held(key),
    {
        broadcast use vstd::std_specs::hash::group_hash_axioms;

        proof {
            self.lemma_model();
            self.lru.lemma_wf();
            assert(self.lookup@.contains_key(key));
        }
        if !self.slots[slot].pinned {
            assert(self.lru@.contains(slot));
            self.lru.remove(slot);
            self.slots[slot].pinned = true;
            proof {
                lemma_keys_remove(old(self).slots@, old(self).lru@, slot);
                self.lru.lemma_wf();
                lemma_keys_same(old(self).slots@, self.lru@);
                lemma_remove_contains(old(self).lru@, slot);
            }
        }
        proof {
            assert(self.shadow_keys() =~= old(self).shadow_keys());
            assert(self@.entries =~= old(self)@.held(key).entries);
        }
    }

    /// Puts the page `key`, held and with the given bytes, into a slot of the
    /// pool that nothing uses.
    fn occupy(&mut self, key: u32, page: Vec<u8>, extra: Vec<u8>) -> (r: usize)
        requires
            old(self).wf(),
            !old(self)@.resident(key),
            page@.len() == old(self).sz_page(),
            extra@.len() == old(self).sz_extra(),
            old(self)@.resident_keys().len() < u32::MAX,
        ensures
            final(self).wf(),
            final(self).same_shape(old(self)),
            final(self).region() == old(self).region(),
            old(self)@.slot_free(r),
            final(self)@ == old(self)@.loaded(key, r, page@, extra@),
    {
        broadcast use vstd::std_specs::hash::group_hash_axioms;

        proof {
            self.lru.lemma_wf();
            assert(self@.resident_keys() =~= self.shadow_keys());
            assert forall|k: u32| #[trigger] self@.resident(k) implies self.lookup@.contains_key(
                k,
            ) by {}
        }
        let ghost live = self.slots@;
        let ghost page_view = page@;
        let ghost extra_view = extra@;
        let slot = ShadowSlot { key, live: true, pinned: true, page, extra };
        let r: usize = match self.free.pop() {
            Some(i) => {
                assert(old(self).free@[old(self).free@.len() - 1] == i);
                assert(forall|j: int|
                    0 <= j < self.free@.len() ==> old(self).free@[j] == #[trigger] self.free@[j]);
                self.slots[i] = slot;
                i
            },
            None => {
                self.slots.push(slot);
                self.lru.grow();
                self.slots.len() - 1
            },
        };
        self.lookup.insert(key, LookupEntry::Shadow(r));
        proof {
            assert(self.shadow_keys() =~= old(self).shadow_keys().insert(key));
            assert(!old(self).shadow_keys().contains(key));
        }
        self.shadow_count = self.shadow_count + 1;
        proof {
            assert(forall|i: int|
                0 <= i < live.len() && i != r ==> #[trigger] self.slots@[i] == live[i]);
            assert(!old(self).lru@.contains(r));
            assert(self@.lru =~= old(self)@.lru) by {
                assert forall|j: int| 0 <= j < self.lru@.len() implies self.lru@[j] != r by {
                    assert(self.lru@.contains(self.lru@[j]));
                }
            }
            assert(self.lookup_ok()) by {
                assert forall|k: u32| (#[trigger] self.lookup@.contains_key(k)) && k != key implies
                    old(self).lookup@.contains_key(k) && self.lookup@[k] == old(
                    self,
                ).lookup@[k] by {}
            }
            assert(self.slots_ok()) by {
                assert forall|i: int| 0 <= i < self.slots@.len() && i != r
                    && (#[trigger] self.slots@[i]).live implies self.lookup@.contains_key(
                    self.slots@[i].key,
                ) && self.lookup@[self.slots@[i].key] == LookupEntry::Shadow(i as usize) by {
                    assert(live[i].live);
                    assert(i < self.slots.len());
                }
            }
            assert(self@.entries =~= old(self)@.loaded(key, r, page_view, extra_view).entries) by {
                assert forall|k: u32| k != key && self.lookup@.contains_key(k) implies
                    #[trigger] self@.entries[k] == old(self)@.entries[k] by {
                    assert(old(self).lookup@.contains_key(k));
                }
            }
        }
        r
    }

    /// Drops the page `key`, its slot and its place in the recency order.
    fn forget(&mut self, key: u32)
        requires
            old(self).wf(),
            old(self)@.entries.contains_key(key),
        ensures
            final(self).wf(),
            final(self).same_shape(old(self)),
            final(self).region() == old(self).region(),
            final(self)@ == old(self)@.forgotten(key),
    {
        broadcast use vstd::std_specs::hash::group_hash_axioms;

        proof {
            self.lemma_model();
            self.lru.lemma_wf();
            assert(self.lookup@.contains_key(key));
        }
        let e: LookupEntry = match self.lookup.remove(&key) {
            Some(e) => e,
            None => {
                return;
            },
        };
        match e {
            LookupEntry::Shadow(slot) => {
                if !self.slots[slot].pinned {
                    assert(old(self).lru@.contains(slot));
                    self.lru.remove(slot);
                    proof {
                        lemma_keys_remove(old(self).slots@, old(self).lru@, slot);
                        lemma_remove_contains(old(self).lru@, slot);
                        self.lru.lemma_wf();
                    }
                }
                self.slots[slot].live = false;
                self.free.push(slot);
                proof {
                    assert(self.shadow_keys() =~= old(self).shadow_keys().remove(key));
                    assert(old(self).shadow_keys().contains(key));
                }
                self.shadow_count = self.shadow_count - 1;
                proof {
                    lemma_keys_same(old(self).slots@, self.lru@);
                    assert(self.slots_ok()) by {
                        assert forall|i: int| 0 <= i < self.slots@.len()
                            && (#[trigger] self.slots@[i]).live implies self.lookup@.contains_key(
                            self.slots@[i].key,
                        ) && self.lookup@[self.slots@[i].key] == LookupEntry::Shadow(
                            i as usize,
                        ) by {
                            assert(old(self).slots@[i].live);
                            assert(i < self.slots.len());
                        }
                    }
                    assert(self.free_ok()) by {
                        assert forall|j: int| 0 <= j < self.free@.len() implies (
                        #[trigger] self.free@[j]) < self.slots@.len()
                            && !self.slots@[self.free@[j] as int].live by {
                            if j < old(self).free@.len() {
                                assert(old(self).free@[j] == self.free@[j]);
                            }
                        }
                    }
                }
            },
            LookupEntry::Cold => {
                proof {
                    assert(self.shadow_keys() =~= old(self).shadow_keys());
                }
            },
        }
        proof {
            assert(self.lookup_ok()) by {
                assert forall|k: u32| (#[trigger] self.lookup@.contains_key(k)) implies old(
                    self,
                ).lookup@.contains_key(k) && self.lookup@[k] == old(self).lookup@[k] by {}
            }
            assert(self@.entries =~= old(self)@.entries.remove(key)) by {
                assert forall|k: u32| k != key && self.lookup@.contains_key(k) implies
                    #[trigger] self@.entries[k] == old(self)@.entries[k] by {
                    assert(old(self).lookup@.contains_key(k));
                }
            }
        }
    }

    /// Sets the pool size (none below zero) and demotes unpinned pages, the
    /// least recently used first, until the pool is within it or every page
    /// left is held.
    pub fn set_cachesize(&mut self, n: i32)
        requires
            old(self).wf(),
        ensures
            final(self).wf(),
            final(self).same_shape(old(self)),
            ({
                let m = old(self)@.resized(n);
                &&& final(self)@ == m.evicted_times(m.surplus())
                &&& flushed_times(
                    old(self).region(),
                    final(self).region(),
                    m,
                    m.surplus(),
                    old(self).sz_page(),
                )
                &&& final(self)@.resident_keys().len() == old(self)@.resident_keys().len()
                    - m.surplus()
            }),
    {
        self.shadow_capacity = if n < 0 {
            0
        } else {
            n as u32
        };
        let ghost m = self@;
        let ghost mut k: nat = 0;
        let ghost sz = self.sz_page();
        proof {
            assert(self.shadow_keys() =~= old(self).shadow_keys());
            assert(m =~= old(self)@.resized(n));
            assert(m.resident_keys() =~= self.shadow_keys());
            assert(old(self)@.resident_keys() =~= self.shadow_keys());
        }
        while self.shadow_count > self.shadow_capacity
            invariant
                self.wf(),
                self.same_shape(old(self)),
                sz == self.sz_page(),
                self@ == m.evicted_times(k),
                self@.capacity == m.capacity,
                self.shadow_count == self@.resident_keys().len(),
                self@.lru.len() + k == m.lru.len(),
                self@.resident_keys().len() + k == m.resident_keys().len(),
                k > 0 ==> m.resident_keys().len() - k >= m.capacity,
                flushed_times(old(self).region(), self.region(), m, k, sz),
            ensures
                k == m.surplus(),
            decreases self.shadow_count,
        {
            let ghost r0 = self.region();
            let ghost m0 = self@;
            if !self.evict_one() {
                break;
            }
            proof {
                k = k + 1;
                assert(self@ == m.evicted_times(k));
                assert(self@.resident_keys() =~= self.shadow_keys());
                assert(m0 == m.evicted_times((k - 1) as nat));
                assert(flushed_times(old(self).region(), r0, m, (k - 1) as nat, sz));
                lemma_flushed_more(old(self).region(), r0, self.region(), m, (k - 1) as nat, sz);
            }
        }
        assert(self@.resident_keys() =~= self.shadow_keys());
    }

    /// Fetches page `key` and holds it. A resident page is handed out as it
    /// is, a cold one is loaded into a slot again, an unknown one is created
    /// with zeroed bytes unless `create_flag` is 0. Where the pool is full, the
    /// least recently used unpinned page makes room; with every page held the
    /// pool grows only for a `create_flag` of 2. `None` where there is nothing
    /// to hand out.
    pub fn fetch(&mut self, key: u32, create_flag: i32) -> (r: Option<usize>)
        requires
            old(self).wf(),
            old(self)@.resident_keys().len() < u32::MAX,
        ensures
            final(self).wf(),
            final(self).same_shape(old(self)),
            r is None <==> old(self)@.refuses(key, create_flag),
            r is None ==> *final(self) == *old(self),
            create_flag == 2 ==> r is Some,
            in_pool(old(self)@, key) ==> r is Some,
            slot_to_be_had(old(self)@) && (create_flag != 0 || old(self)@.entries.contains_key(key))
                ==> r is Some,
            !old(self)@.entries.contains_key(key) && create_flag == 0 ==> r is None,
            !in_pool(old(self)@, key) && !slot_to_be_had(old(self)@) && create_flag != 2
                ==> r is None,
            r is Some ==> in_pool(final(self)@, key) && final(self)@.entries[key]->pinned
                && final(self)@.entries[key]->slot == r->Some_0,
            r is Some ==> fetched(
                old(self)@,
                old(self).region(),
                key,
                r->Some_0,
                final(self)@,
                final(self).region(),
                old(self).sz_page(),
                old(self).sz_extra(),
            ),
    {
        broadcast use vstd::std_specs::hash::group_hash_axioms;

        proof {
            self.lemma_model();
            assert(self@.resident_keys() =~= self.shadow_keys());
            lemma_when_a_fetch_succeeds(self@, key, create_flag);
        }
        let cold_hit: bool = match self.lookup(key) {
            Some(LookupEntry::Shadow(slot)) => {
                self.hold(key, slot);
                return Some(slot);
            },
            Some(LookupEntry::Cold) => true,
            None => false,
        };
        if !cold_hit && create_flag == 0 {
            return None;
        }
        if self.shadow_count >= self.shadow_capacity {
            if !self.evict_one() {
                if create_flag != 2 {
                    return None;
                }
            }
        }
        let ghost mid = *self;
        proof {
            mid.lemma_model();
            if cold_hit {
                assert(old(self)@.entries[key] is Cold);
            }
            assert(old(self)@.lru.len() > 0 ==> old(self)@.lru.contains(old(self)@.lru.last()));
            assert(mid@.cold(key) <==> old(self)@.cold(key));
            if cold_hit {
                mid.lemma_offsets(key);
            }
        }
        let mut page: Vec<u8> = zeroed(self.sz_page as usize);
        if cold_hit {
            let offset: u32 = self.offset_of(key);
            match self.region.read(offset, self.sz_page as u32) {
                Ok(Some(bytes)) => {
                    page = bytes;
                },
                Ok(None) => {},
                Err(_) => {},
            }
        }
        let extra: Vec<u8> = zeroed(self.sz_extra as usize);
        Some(self.occupy(key, page, extra))
    }

    /// Lets go of the page in slot `slot`. With `discard` the page is dropped;
    /// otherwise its bytes go to the region and it becomes the most recently
    /// used of the unpinned pages.
    pub fn unpin(&mut self, slot: usize, discard: bool)
        requires
            old(self).wf(),
            old(self)@.occupied(slot),
            old(self)@.pinned(old(self)@.key_of(slot)),
            !discard ==> addressable(old(self)@.key_of(slot), old(self).sz_page()),
        ensures
            final(self).wf(),
            final(self).same_shape(old(self)),
            ({
                let key = old(self)@.key_of(slot);
                if discard {
                    &&& final(self)@ == old(self)@.forgotten(key)
                    &&& final(self).region() == old(self).region()
                } else {
                    &&& final(self)@ == old(self)@.let_go(key)
                    &&& flushed(
                        old(self).region(),
                        final(self).region(),
                        old(self)@,
                        key,
                        old(self).sz_page(),
                    )
                }
            }),
    {
        broadcast use vstd::std_specs::hash::group_hash_axioms;

        proof {
            self.lemma_slot(slot);
            self.lemma_model();
            self.lru.lemma_wf();
        }
        let key: u32 = self.slots[slot].key;
        if discard {
            self.forget(key);
            return;
        }
        let offset: u32 = self.offset_of(key);
        let _ = self.region.write(offset, self.slots[slot].page.as_slice());
        self.slots[slot].pinned = false;
        self.lru.push_front(slot);
        proof {
            let o = old(self).lru@;
            assert(self.lru@.len() == o.len() + 1);
            assert(forall|j: int| 0 <= j < o.len() ==> self.lru@[j + 1] == #[trigger] o[j]);
            assert(self@.lru =~= old(self)@.let_go(key).lru);
            assert(self.shadow_keys() =~= old(self).shadow_keys());
            assert(self.lru_ok()) by {
                assert forall|i: usize| #[trigger] self.lru@.contains(i) <==> o.contains(i) || i
                    == slot by {
                    if self.lru@.contains(i) {
                        let j = choose|j: int| 0 <= j < self.lru@.len() && self.lru@[j] == i;
                        assert(j > 0 ==> o[j - 1] == i);
                    }
                    if o.contains(i) {
                        let j = choose|j: int| 0 <= j < o.len() && o[j] == i;
                        assert(self.lru@[j + 1] == i);
                    }
                    assert(self.lru@[0] == slot);
                }
            }
            assert(self@.entries =~= old(self)@.let_go(key).entries) by {
                assert forall|k: u32| k != key && self.lookup@.contains_key(k) implies
                    #[trigger] self@.entries[k] == old(self)@.entries[k] by {
                    assert(old(self).lookup@.contains_key(k));
                }
            }
        }
    }

    /// The page in slot `slot`, known as `old_key`, is known as `new_key` from
    /// now on; another page known as `new_key` is dropped. The region's bytes
    /// move along.
    pub fn rekey(&mut self, slot: usize, old_key: u32, new_key: u32)
        requires
            old(self).wf(),
            old(self)@.holds(slot, old_key),
            addressable(old_key, old(self).sz_page()),
            addressable(new_key, old(self).sz_page()),
        ensures
            final(self).wf(),
            final(self).same_shape(old(self)),
            final(self)@ == old(self)@.rekeyed(old_key, new_key),
            copy_effect(
                old(self).region(),
                final(self).region(),
                page_offset(old_key, old(self).sz_page()),
                page_offset(new_key, old(self).sz_page()),
                old(self).sz_page() as nat,
            ),
    {
        broadcast use vstd::std_specs::hash::group_hash_axioms;

        if old_key != new_key {
            proof {
                self.lemma_model();
                assert(self.lookup@.contains_key(old_key));
            }
            if self.lookup.contains_key(&new_key) {
                self.forget(new_key);
            }
            let ghost mid = *self;
            proof {
                mid.lemma_model();
                mid.lru.lemma_wf();
                assert(mid@ =~= old(self)@.forgotten(new_key)) by {
                    if !old(self)@.entries.contains_key(new_key) {
                        assert(old(self)@.entries.remove(new_key) =~= old(self)@.entries);
                    }
                }
                assert(mid@.holds(slot, old_key));
                assert(mid.lookup@.contains_key(old_key));
                assert(!mid@.entries.contains_key(new_key));
                assert(!mid.lookup@.contains_key(new_key));
            }
            self.lookup.remove(&old_key);
            self.slots[slot].key = new_key;
            self.lookup.insert(new_key, LookupEntry::Shadow(slot));
            proof {
                assert(self.shadow_keys() =~= mid.shadow_keys().remove(old_key).insert(new_key));
                assert(mid.shadow_keys().contains(old_key));
                assert(!mid.shadow_keys().contains(new_key));
                assert(self.lookup_ok()) by {
                    assert forall|k: u32| (#[trigger] self.lookup@.contains_key(k)) && k != new_key
                        implies mid.lookup@.contains_key(k) && self.lookup@[k] == mid.lookup@[k]
                        && k != old_key by {}
                }
                assert(self.slots_ok()) by {
                    assert forall|i: int| 0 <= i < self.slots@.len() && i != slot
                        && (#[trigger] self.slots@[i]).live implies self.lookup@.contains_key(
                        self.slots@[i].key,
                    ) && self.lookup@[self.slots@[i].key] == LookupEntry::Shadow(i as usize) by {
                        assert(mid.slots@[i].live);
                        assert(i < self.slots.len());
                    }
                }
                let want = old(self)@.rekeyed(old_key, new_key);
                assert(self@.entries =~= want.entries) by {
                    assert forall|k: u32| k != new_key && self.lookup@.contains_key(k) implies
                        #[trigger] self@.entries[k] == mid@.entries[k] by {
                        assert(mid.lookup@.contains_key(k));
                    }
                }
                assert(self@.lru =~= want.lru) by {
                    assert forall|j: int| 0 <= j < self.lru@.len() implies #[trigger] self@.lru[j]
                        == want.lru[j] by {
                        assert(mid.lru@.contains(mid.lru@[j]));
                        let i = mid.lru@[j];
                        assert(mid.slots@[i as int].live);
                        assert(mid@.lru[j] == mid.slots@[i as int].key);
                    }
                }
            }
        }
        let src: u32 = self.offset_of(old_key);
        let dst: u32 = self.offset_of(new_key);
        let _ = self.region.copy(src, dst, self.sz_page as u32);
    }

    /// Drops every page at or above `limit`, held or not, and their bytes in
    /// the region.
    pub fn truncate(&mut self, limit: u32)
        requires
            old(self).wf(),
        ensures
            final(self).wf(),
            final(self).same_shape(old(self)),
            final(self)@ == old(self)@.truncated(limit),
            cut_effect(old(self).region(), final(self).region(), limit, old(self).sz_page()),
    {
        broadcast use vstd::std_specs::hash::group_hash_axioms;

        let to_remove: Vec<u32> = keys_from(&self.lookup, limit);
        let ghost m = self@;
        let mut i: usize = 0;
        proof {
            self.lemma_model();
            assert forall|j: int| 0 <= j < to_remove@.len() implies m.entries.contains_key(
                #[trigger] to_remove@[j],
            ) by {
                assert(to_remove@.contains(to_remove@[j]));
            }
            let p = |k: u32| !to_remove@.subrange(0, 0).contains(k);
            assert(self@.entries =~= m.entries.restrict(m.entries.dom().filter(p)));
            lemma_filter_all(m.lru, p);
        }
        while i < to_remove.len()
            invariant
                self.wf(),
                m.wf(),
                m.capacity == self@.capacity,
                self.same_shape(old(self)),
                self.region() == old(self).region(),
                to_remove@.no_duplicates(),
                forall|j: int|
                    0 <= j < to_remove@.len() ==> m.entries.contains_key(#[trigger] to_remove@[j]),
                self@.entries == m.entries.restrict(
                    m.entries.dom().filter(
                        |k: u32| !to_remove@.subrange(0, i as int).contains(k),
                    ),
                ),
                self@.lru == m.lru.filter(
                    |k: u32| !to_remove@.subrange(0, i as int).contains(k),
                ),
                i <= to_remove.len(),
            decreases to_remove.len() - i,
        {
            let key: u32 = to_remove[i];
            let ghost pre = self@;
            proof {
                self.lemma_model();
                assert(m.entries.contains_key(to_remove@[i as int]));
                assert forall|j: int| 0 <= j < i implies to_remove@.subrange(0, i as int)[j]
                    != key by {}
                assert(!to_remove@.subrange(0, i as int).contains(key));
                assert(pre.entries.contains_key(key));
            }
            self.forget(key);
            proof {
                let p = |k: u32| !to_remove@.subrange(0, i as int).contains(k);
                let q = |k: u32| !to_remove@.subrange(0, i + 1).contains(k);
                assert forall|k: u32| #[trigger] q(k) == (p(k) && k != key) by {
                    lemma_prefix_contains(to_remove@, i as int, k);
                }
                assert(self@.entries =~= m.entries.restrict(m.entries.dom().filter(q)));
                lemma_filter_one_less(m.lru, p, q, key);
            }
            i = i + 1;
        }
        proof {
            let p = |k: u32| !to_remove@.subrange(0, i as int).contains(k);
            let q = |k: u32| k < limit;
            assert(to_remove@.subrange(0, i as int) =~= to_remove@);
            assert forall|k: u32| m.entries.contains_key(k) implies p(k) == q(k) by {
                assert(to_remove@.contains(k) <==> k >= limit);
            }
            assert(self@.entries =~= m.entries.restrict(m.entries.dom().filter(q)));
            assert forall|j: int| 0 <= j < m.lru.len() implies p(#[trigger] m.lru[j]) == q(
                m.lru[j],
            ) by {
                assert(m.lru.contains(m.lru[j]));
            }
            lemma_filter_same(m.lru, p, q);
        }
        if self.has_offset(limit) {
            let floor: u32 = self.offset_of(limit);
            let _ = self.region.truncate_above(floor);
        }
    }
}

} // verus!
