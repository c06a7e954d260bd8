//! What a caller can rely on call by call: when a page is handed out, which page
//! makes room for another one, and what stays as it was.

use crate::bytes::zeros;
use crate::pcache::cache::{
    addressable, cut_effect, fetched, flushed, page_offset, CacheModel, PageState,
    ShadowCache,
};
use crate::pcache::region::{copy_effect, InProcRegion, Region, RegionModel};
use vstd::prelude::*;

verus! {

/// Page `k` is in the pool.
pub open spec fn in_pool(m: CacheModel, k: u32) -> bool {
    m.entries.contains_key(k) && m.entries[k] is Shadow
}

/// Page `k` is in the pool and nobody holds it.
pub open spec fn idle(m: CacheModel, k: u32) -> bool {
    m.entries.contains_key(k) && m.entries[k] is Shadow && !m.entries[k]->pinned
}

/// How many pages are in the pool.
pub open spec fn pool_size(m: CacheModel) -> nat {
    m.entries.dom().filter(|k: u32| m.entries[k] is Shadow).len()
}

/// A slot can be had: the pool is not full, or some page in it is idle.
pub open spec fn slot_to_be_had(m: CacheModel) -> bool {
    pool_size(m) < m.capacity || exists|k: u32| idle(m, k)
}

/// A page is known in exactly one of three states: held in the pool, idle in the
/// pool, or cold; and the pool is full where it has no room below its size.
pub proof fn lemma_states_of_a_page(m: CacheModel, key: u32, slot: usize)
    ensures
        m.resident(key) <==> in_pool(m, key),
        m.pinned(key) <==> in_pool(m, key) && !idle(m, key),
        m.cold(key) <==> m.entries.contains_key(key) && !in_pool(m, key),
        m.resident_keys().len() == pool_size(m),
        m.full() <==> pool_size(m) >= m.capacity,
        m.holds(slot, key) <==> in_pool(m, key) && m.entries[key]->slot == slot,
        m.occupied(slot) <==> exists|k: u32| #[trigger]
            in_pool(m, k) && m.entries[k]->slot == slot,
        m.slot_free(slot) <==> forall|k: u32| #[trigger]
            in_pool(m, k) ==> m.entries[k]->slot != slot,
{
    if m.occupied(slot) {
        let k = choose|k: u32| m.holds(slot, k);
        assert(in_pool(m, k));
    }
    if exists|k: u32| #[trigger] in_pool(m, k) && m.entries[k]->slot == slot {
        let k = choose|k: u32| #[trigger] in_pool(m, k) && m.entries[k]->slot == slot;
        assert(m.holds(slot, k));
    }
    if m.slot_free(slot) {
        assert forall|k: u32| #[trigger] in_pool(m, k) implies m.entries[k]->slot != slot by {
            assert(m.resident(k));
        }
    }
    if forall|k: u32| #[trigger] in_pool(m, k) ==> m.entries[k]->slot != slot {
        assert forall|k: u32| #[trigger] m.resident(k) implies m.entries[k]->slot != slot by {
            assert(in_pool(m, k));
        }
    }
}

/// When a fetch gives a page: always where the page is in the pool or the create
/// flag is 2; where a slot can be had, also for every page that is known and, unless
/// the flag is 0, for every other one. In all other cases it gives none.
pub proof fn lemma_when_a_fetch_succeeds(m: CacheModel, key: u32, create_flag: i32)
    requires
        m.wf(),
    ensures
        create_flag == 2 ==> !m.refuses(key, create_flag),
        in_pool(m, key) ==> !m.refuses(key, create_flag),
        m.entries.contains_key(key) && slot_to_be_had(m) ==> !m.refuses(key, create_flag),
        create_flag != 0 && slot_to_be_had(m) ==> !m.refuses(key, create_flag),
        !m.entries.contains_key(key) && create_flag == 0 ==> m.refuses(key, create_flag),
        !in_pool(m, key) && !slot_to_be_had(m) && create_flag != 2 ==> m.refuses(key, create_flag),
{
    if exists|k: u32| idle(m, k) {
        let k = choose|k: u32| idle(m, k);
        assert(m.resident(k) && !m.pinned(k));
        assert(m.lru.contains(k));
    }
    if m.lru.len() > 0 {
        assert(m.lru.contains(m.lru.last()));
        assert(idle(m, m.lru.last()));
    }
}

/// What a fetch changes: the page is in a slot of its own and held, with the bytes
/// that it had, or zeros where it is new. Every page that was known is still known,
/// every held page is untouched, and at most one page leaves the pool: the one at
/// the end of the recency list, and only where the pool was full.
pub proof fn lemma_what_a_fetch_changes<R: RegionModel>(
    m: CacheModel,
    r0: R,
    key: u32,
    slot: usize,
    n: CacheModel,
    r1: R,
    sz_page: i32,
    sz_extra: i32,
)
    requires
        m.wf(),
        0 <= sz_page,
        0 <= sz_extra,
        fetched(m, r0, key, slot, n, r1, sz_page, sz_extra),
    ensures
        n.capacity == m.capacity,
        in_pool(n, key),
        n.entries[key]->pinned,
        n.entries[key]->slot == slot,
        in_pool(m, key) ==> {
            &&& n.entries[key]->page == m.entries[key]->page
            &&& n.entries[key]->extra == m.entries[key]->extra
            &&& n.entries[key]->slot == m.entries[key]->slot
            &&& r1 == r0
        },
        !in_pool(m, key) ==> n.entries[key]->extra.len() == sz_extra && forall|i: int|
            0 <= i < sz_extra ==> #[trigger] n.entries[key]->extra[i] == 0,
        !m.entries.contains_key(key) ==> n.entries[key]->page.len() == sz_page && forall|i: int|
            0 <= i < sz_page ==> #[trigger] n.entries[key]->page[i] == 0,
        m.entries.contains_key(key) && m.entries[key] is Cold && r1.written(
            page_offset(key, sz_page),
        ) && r1.serves(page_offset(key, sz_page), sz_page as nat) ==> n.entries[key]->page
            == r1.bytes(page_offset(key, sz_page), sz_page as nat),
        forall|k: u32|
            k != key ==> (#[trigger] n.entries.contains_key(k) <==> m.entries.contains_key(k)),
        forall|k: u32|
            k != key && #[trigger] m.entries.contains_key(k) && !idle(m, k) ==> n.entries[k]
                == m.entries[k],
        forall|k: u32|
            k != key && #[trigger] m.entries.contains_key(k) && n.entries[k] != m.entries[k] ==> {
                &&& n.entries[k] is Cold
                &&& m.lru.len() > 0 && k == m.lru.last()
                &&& pool_size(m) >= m.capacity
                &&& !in_pool(m, key)
            },
        !in_pool(m, key) && pool_size(m) >= m.capacity && m.lru.len() > 0
            ==> n.entries[m.lru.last()] is Cold || m.lru.last() == key,
        forall|k: u32|
            k != key && #[trigger] in_pool(n, k) ==> n.entries[k]->slot != n.entries[key]->slot,
        !in_pool(m, key) ==> n.lru == m.lru || n.lru == m.lru.take(m.lru.len() - 1),
        in_pool(m, key) && m.entries[key]->pinned ==> n.lru == m.lru,
        idle(m, key) ==> exists|i: int|
            0 <= i < m.lru.len() && m.lru[i] == key && n.lru == #[trigger] m.lru.take(i)
                + m.lru.skip(i + 1),
{
    if m.lru.len() > 0 {
        assert(m.lru.contains(m.lru.last()));
    }
    if m.resident(key) {
        if !m.pinned(key) {
            assert(m.lru.contains(key));
            let i = m.lru.index_of(key);
            assert(m.lru.remove(i) =~= m.lru.take(i) + m.lru.skip(i + 1));
        }
        assert forall|k: u32| k != key && #[trigger] in_pool(n, k) implies n.entries[k]->slot
            != n.entries[key]->slot by {
            assert(m.resident(k));
            assert(m.entries[k]->slot != m.entries[key]->slot);
        }
    } else {
        let a = m.room_made();
        assert forall|k: u32| k != key && #[trigger] in_pool(n, k) implies n.entries[k]->slot
            != n.entries[key]->slot by {
            assert(a.resident(k));
        }
        assert(m.lru.drop_last() =~= m.lru.take(m.lru.len() - 1));
    }
}

/// What letting a page go changes: nothing but that nobody holds it and that it is
/// the first of the recency list, before the pages that were let go earlier.
pub proof fn lemma_what_letting_go_changes(m: CacheModel, key: u32)
    requires
        in_pool(m, key),
    ensures
        m.let_go(key).capacity == m.capacity,
        idle(m.let_go(key), key),
        m.let_go(key).entries[key]->page == m.entries[key]->page,
        m.let_go(key).entries[key]->extra == m.entries[key]->extra,
        m.let_go(key).entries[key]->slot == m.entries[key]->slot,
        m.let_go(key).entries.dom() == m.entries.dom(),
        forall|k: u32| k != key ==> #[trigger] m.let_go(key).entries[k] == m.entries[k],
        m.let_go(key).lru.len() == m.lru.len() + 1,
        m.let_go(key).lru[0] == key,
        forall|i: int| 0 <= i < m.lru.len() ==> m.let_go(key).lru[i + 1] == #[trigger] m.lru[i],
{
    assert(m.let_go(key).entries.dom() =~= m.entries.dom());
}

/// What dropping a page changes: that page alone is not known any more.
pub proof fn lemma_what_dropping_changes(m: CacheModel, key: u32)
    requires
        m.wf(),
    ensures
        m.forgotten(key).capacity == m.capacity,
        !m.forgotten(key).entries.contains_key(key),
        forall|k: u32|
            k != key ==> (#[trigger] m.forgotten(key).entries.contains_key(k)
                <==> m.entries.contains_key(k)) && m.forgotten(key).entries[k] == m.entries[k],
        !idle(m, key) ==> m.forgotten(key).lru == m.lru,
        idle(m, key) ==> exists|i: int|
            0 <= i < m.lru.len() && m.lru[i] == key && m.forgotten(key).lru == #[trigger] m.lru.take(
                i,
            ) + m.lru.skip(i + 1),
{
    if m.resident(key) && !m.pinned(key) {
        assert(m.lru.contains(key));
        let i = m.lru.index_of(key);
        assert(m.lru.remove(i) =~= m.lru.take(i) + m.lru.skip(i + 1));
    }
}

/// What changing a key changes: the page is found under the new key as it was, the
/// old key is not known any more, and neither is the page that had the new key.
/// Every other page is untouched.
pub proof fn lemma_what_rekeying_changes(m: CacheModel, old_key: u32, new_key: u32)
    requires
        m.wf(),
        in_pool(m, old_key),
    ensures
        m.rekeyed(old_key, new_key).capacity == m.capacity,
        m.rekeyed(old_key, new_key).entries.contains_key(new_key),
        m.rekeyed(old_key, new_key).entries[new_key] == m.entries[old_key],
        old_key != new_key ==> !m.rekeyed(old_key, new_key).entries.contains_key(old_key),
        forall|k: u32|
            k != old_key && k != new_key ==> (#[trigger] m.rekeyed(
                old_key,
                new_key,
            ).entries.contains_key(k) <==> m.entries.contains_key(k)) && m.rekeyed(
                old_key,
                new_key,
            ).entries[k] == m.entries[k],
        !m.entries.contains_key(new_key) ==> {
            &&& m.rekeyed(old_key, new_key).lru.len() == m.lru.len()
            &&& forall|i: int|
                0 <= i < m.lru.len() ==> m.rekeyed(old_key, new_key).lru[i] == if #[trigger] m.lru[i]
                    == old_key {
                    new_key
                } else {
                    m.lru[i]
                }
        },
{
    if old_key != new_key {
        assert(m.forgotten(new_key).entries.contains_key(old_key));
    }
}

/// What a truncation changes: the pages below the limit are untouched, and the
/// others are not known any more.
pub proof fn lemma_what_truncating_changes(m: CacheModel, limit: u32)
    ensures
        m.truncated(limit).capacity == m.capacity,
        forall|k: u32| #[trigger]
            m.truncated(limit).entries.contains_key(k) <==> m.entries.contains_key(k) && k < limit,
        forall|k: u32| #[trigger]
            m.entries.contains_key(k) && k < limit ==> m.truncated(limit).entries[k]
                == m.entries[k],
        m.truncated(limit).lru == m.lru.filter(|k: u32| k < limit),
{
}

/// What a holder writes is what the page has from then on; nothing else changes.
pub proof fn lemma_what_writing_changes(m: CacheModel, key: u32, bytes: Seq<u8>)
    requires
        in_pool(m, key),
    ensures
        m.edited(key, bytes).lru == m.lru,
        m.edited(key, bytes).capacity == m.capacity,
        m.edited(key, bytes).entries.dom() == m.entries.dom(),
        m.edited(key, bytes).entries[key] == (PageState::Shadow {
            slot: m.entries[key]->slot,
            pinned: m.entries[key]->pinned,
            page: bytes,
            extra: m.entries[key]->extra,
        }),
        m.extra_edited(key, bytes).lru == m.lru,
        m.extra_edited(key, bytes).capacity == m.capacity,
        m.extra_edited(key, bytes).entries.dom() == m.entries.dom(),
        m.extra_edited(key, bytes).entries[key] == (PageState::Shadow {
            slot: m.entries[key]->slot,
            pinned: m.entries[key]->pinned,
            page: m.entries[key]->page,
            extra: bytes,
        }),
        forall|k: u32|
            k != key ==> #[trigger] m.edited(key, bytes).entries[k] == m.entries[k]
                && m.extra_edited(key, bytes).entries[k] == m.entries[k],
{
    assert(m.edited(key, bytes).entries.dom() =~= m.entries.dom());
    assert(m.extra_edited(key, bytes).entries.dom() =~= m.entries.dom());
}

/// The `k` pages at the end of the recency list are cold, and all others untouched.
proof fn lemma_evictions(m: CacheModel, k: nat)
    requires
        m.wf(),
        k <= m.lru.len(),
    ensures
        m.evicted_times(k).capacity == m.capacity,
        m.evicted_times(k).lru == m.lru.take(m.lru.len() - k),
        m.evicted_times(k).entries.dom() == m.entries.dom(),
        forall|x: u32| #[trigger]
            m.entries.contains_key(x) ==> m.evicted_times(k).entries[x] == if m.lru.skip(
                m.lru.len() - k,
            ).contains(x) {
                PageState::Cold
            } else {
                m.entries[x]
            },
        pool_size(m.evicted_times(k)) + k == pool_size(m),
    decreases k,
{
    if k == 0 {
        assert(m.lru.take(m.lru.len() as int) =~= m.lru);
        assert(m.lru.skip(m.lru.len() as int) =~= Seq::empty());
    } else {
        let j = (k - 1) as nat;
        lemma_evictions(m, j);
        let a = m.evicted_times(j);
        let b = m.evicted_times(k);
        let x = a.lru.last();
        assert(x == m.lru[m.lru.len() - k]);
        assert(m.lru.contains(x));
        let old_tail = m.lru.skip(m.lru.len() - j);
        let tail = m.lru.skip(m.lru.len() - k);
        assert(tail =~= seq![x] + old_tail);
        assert(b.lru =~= m.lru.take(m.lru.len() - k));
        assert(b.entries.dom() =~= m.entries.dom());
        assert(!old_tail.contains(x)) by {
            if old_tail.contains(x) {
                let i = choose|i: int| 0 <= i < old_tail.len() && old_tail[i] == x;
                assert(m.lru[m.lru.len() - j + i] == x);
            }
        }
        assert forall|y: u32| tail.contains(y) <==> y == x || old_tail.contains(y) by {
            if old_tail.contains(y) {
                let i = choose|i: int| 0 <= i < old_tail.len() && old_tail[i] == y;
                assert(tail[i + 1] == y);
            }
            assert(tail[0] == x);
            if tail.contains(y) && y != x {
                let i = choose|i: int| 0 <= i < tail.len() && tail[i] == y;
                assert(old_tail[i - 1] == y);
            }
        }
        let pa = a.entries.dom().filter(|k: u32| a.entries[k] is Shadow);
        let pb = b.entries.dom().filter(|k: u32| b.entries[k] is Shadow);
        assert(a.entries[x] == m.entries[x]);
        assert(pa.contains(x));
        assert(pb =~= pa.remove(x));
        vstd::set_lib::lemma_len_subset(pa, a.entries.dom());
    }
}

/// What a new pool size changes: the pool shrinks to it as far as idle pages allow
/// and no further, those leave that were let go longest ago, and all that leave are
/// still known. Every other page is untouched.
pub proof fn lemma_what_resizing_changes(m: CacheModel, size: i32)
    requires
        m.wf(),
    ensures
        ({
            let n = m.resized(size).evicted_times(m.resized(size).surplus());
            &&& size >= 0 ==> n.capacity == size
            &&& size < 0 ==> n.capacity == 0
            &&& n.entries.dom() == m.entries.dom()
            &&& pool_size(n) <= n.capacity || n.lru.len() == 0
            &&& pool_size(m) <= n.capacity ==> n.lru == m.lru && n.entries == m.entries
            &&& n.lru.len() < m.lru.len() ==> pool_size(n) >= n.capacity
            &&& n.lru.len() <= m.lru.len()
            &&& n.lru == m.lru.take(n.lru.len() as int)
            &&& forall|x: u32| #[trigger]
                m.entries.contains_key(x) && !idle(m, x) ==> n.entries[x] == m.entries[x]
            &&& forall|i: int|
                0 <= i < n.lru.len() ==> n.entries[#[trigger] m.lru[i]] == m.entries[m.lru[i]]
            &&& forall|i: int|
                n.lru.len() <= i < m.lru.len() ==> n.entries[#[trigger] m.lru[i]] is Cold
        }),
{
    let a = m.resized(size);
    let k = a.surplus();
    assert forall|x: u32| #[trigger] a.lru.contains(x) <==> a.resident(x) && !a.pinned(x) by {
        assert(m.lru.contains(x) <==> m.resident(x) && !m.pinned(x));
    }
    assert forall|k1: u32, k2: u32| a.resident(k1) && a.resident(k2) && k1 != k2 implies #[trigger]
        a.entries[k1]->slot != #[trigger] a.entries[k2]->slot by {
        assert(m.resident(k1) && m.resident(k2));
    }
    lemma_evictions(a, k);
    let n = a.evicted_times(k);
    let tail = m.lru.skip(m.lru.len() - k);
    if k == 0 {
        assert(m.lru.take(m.lru.len() as int) =~= m.lru);
        assert(n.entries =~= m.entries);
    }
    assert forall|x: u32| #[trigger] m.entries.contains_key(x) && !idle(m, x) implies n.entries[x]
        == m.entries[x] by {
        assert(a.entries.contains_key(x));
        if tail.contains(x) {
            let i = choose|i: int| 0 <= i < tail.len() && tail[i] == x;
            assert(m.lru[m.lru.len() - k + i] == x);
            assert(m.lru.contains(x));
        }
    }
    assert forall|i: int| 0 <= i < n.lru.len() implies n.entries[#[trigger] m.lru[i]]
        == m.entries[m.lru[i]] by {
        let x = m.lru[i];
        assert(m.lru.contains(x));
        assert(a.entries.contains_key(x));
        if tail.contains(x) {
            let j = choose|j: int| 0 <= j < tail.len() && tail[j] == x;
            assert(m.lru[m.lru.len() - k + j] == x);
        }
    }
    assert forall|i: int| n.lru.len() <= i < m.lru.len() implies n.entries[#[trigger] m.lru[i]] is
        Cold by {
        let x = m.lru[i];
        assert(m.lru.contains(x));
        assert(a.entries.contains_key(x));
        assert(tail[i - (m.lru.len() - k)] == x);
    }
}

/// Where a page's bytes lie: each page has its own place, one page size after that
/// of the key before it.
pub proof fn lemma_where_pages_lie(key: u32, sz_page: i32)
    requires
        0 <= sz_page,
    ensures
        addressable(key, sz_page) <==> key * sz_page <= 0xffff_ffff,
        addressable(key, sz_page) ==> page_offset(key, sz_page) == key * sz_page,
{
    assert(0 <= key * sz_page) by (nonlinear_arith)
        requires
            0 <= sz_page,
            0 <= key,
    ;
}

/// A page that is flushed is found in the region, where the region takes it, and
/// the bytes of every other place stay.
pub proof fn lemma_what_flushing_changes<R: RegionModel>(
    r0: R,
    r1: R,
    m: CacheModel,
    key: u32,
    sz_page: i32,
)
    requires
        flushed(r0, r1, m, key, sz_page),
        r0.accepts(page_offset(key, sz_page), m.entries[key]->page.len()),
    ensures
        r1.inv(),
        r1.written(page_offset(key, sz_page)),
        r1.serves(page_offset(key, sz_page), m.entries[key]->page.len()),
        r1.bytes(page_offset(key, sz_page), m.entries[key]->page.len()) == m.entries[key]->page,
        forall|o: u32, l: nat|
            o + l <= page_offset(key, sz_page) || page_offset(key, sz_page)
                + m.entries[key]->page.len() <= o ==> o == page_offset(key, sz_page) || #[trigger]
            r1.bytes(o, l) == r0.bytes(o, l),
{
}

/// What a truncation drops from the region: everything at or above the limit's
/// place, and nothing below it.
pub proof fn lemma_what_cutting_changes<R: RegionModel>(
    r0: R,
    r1: R,
    limit: u32,
    sz_page: i32,
    o: u32,
    l: nat,
)
    requires
        0 <= sz_page,
        r0.inv(),
        cut_effect(r0, r1, limit, sz_page),
    ensures
        r1.inv(),
        o < limit * sz_page ==> r1.written(o) == r0.written(o),
        o >= limit * sz_page ==> !r1.written(o),
        o < limit * sz_page && r0.written(o) ==> r1.bytes(o, l) == r0.bytes(o, l) && r1.serves(o, l)
            == r0.serves(o, l),
{
    assert(0 <= limit * sz_page) by (nonlinear_arith)
        requires
            0 <= sz_page,
            0 <= limit,
    ;
}

/// What a copy changes: where the region can read the source and takes the copy, the
/// bytes at the destination are those at the source; the bytes of every other place
/// stay, and a copy of nothing changes nothing.
pub proof fn lemma_what_copying_changes<R: RegionModel>(
    r0: R,
    r1: R,
    src: u32,
    dst: u32,
    len: nat,
    o: u32,
    l: nat,
)
    requires
        copy_effect(r0, r1, src, dst, len),
        r0.bytes(src, len).len() == len,
    ensures
        r1.inv(),
        !r0.written(src) ==> r1 == r0,
        r0.written(src) && r0.serves(src, len) && r0.accepts(dst, len) ==> r1.written(dst)
            && r1.serves(dst, len) && r1.bytes(dst, len) == r0.bytes(src, len),
        o != dst ==> r1.written(o) == r0.written(o),
        o != dst && (o + l <= dst || dst + len <= o) ==> r1.bytes(o, l) == r0.bytes(o, l)
            && r1.serves(o, l) == r0.serves(o, l),
{
}

/// A region in memory takes everything, and gives back what it has.
pub proof fn lemma_memory_region_is_reliable(r: InProcRegion, offset: u32, len: nat)
    ensures
        r.inv(),
        r.accepts(offset, len),
        r.written(offset) <==> r@.contains_key(offset),
        r.bytes(offset, len) == r@[offset],
        r.serves(offset, len) <==> r@[offset].len() == len,
{
}

/// A fresh slot has no bytes set.
pub proof fn lemma_zeros(n: nat, i: int)
    requires
        0 <= i < n,
    ensures
        zeros(n).len() == n,
        zeros(n)[i] == 0,
{
}

/// A cache keeps its shape where its page size, the size of the engine's area beside
/// each page and its leave to drop pages stay.
pub proof fn lemma_shapes<R: Region>(a: ShadowCache<R>, b: ShadowCache<R>)
    ensures
        a.same_shape(&b) <==> a.sz_page() == b.sz_page() && a.sz_extra() == b.sz_extra()
            && a.purgeable() == b.purgeable(),
{
}

} // verus!
