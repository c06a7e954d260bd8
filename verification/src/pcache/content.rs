//! What the cache promises of a page's bytes: over a region that can be relied
//! on, a page reads back what was last left in it, wherever it lived meanwhile.

use crate::bytes::zeros;
use crate::pcache::cache::{
    addressable, cut_effect, fetched, flushed, flushed_times, loaded, page_offset, room_effect,
    CacheModel,
};
use crate::pcache::region::{changes_only, copy_effect, disjoint, RegionModel};
use vstd::prelude::*;

verus! {

/// The bytes a holder of page `key` sees, or would see after fetching it.
pub open spec fn content<R: RegionModel>(m: CacheModel, r: R, sz_page: i32, key: u32) -> Seq<u8> {
    if m.resident(key) {
        m.entries[key]->page
    } else if m.cold(key) && r.written(page_offset(key, sz_page)) {
        r.bytes(page_offset(key, sz_page), sz_page as nat)
    } else {
        zeros(sz_page as nat)
    }
}

/// The region takes every page that the cache knows and gives every cold one
/// back.
pub open spec fn reliable<R: RegionModel>(m: CacheModel, r: R, sz_page: i32) -> bool {
    &&& sz_page > 0
    &&& forall|k: u32| #[trigger]
        m.entries.contains_key(k) ==> {
            &&& addressable(k, sz_page)
            &&& r.accepts(page_offset(k, sz_page), sz_page as nat)
            &&& m.resident(k) ==> m.entries[k]->page.len() == sz_page
            &&& m.cold(k) && r.written(page_offset(k, sz_page)) ==> r.serves(
                page_offset(k, sz_page),
                sz_page as nat,
            )
        }
}

/// The pages of two different keys share no byte of the region.
pub proof fn lemma_pages_disjoint(k1: u32, k2: u32, sz_page: i32)
    requires
        k1 != k2,
        sz_page > 0,
        addressable(k1, sz_page),
        addressable(k2, sz_page),
    ensures
        page_offset(k1, sz_page) != page_offset(k2, sz_page),
        disjoint(
            page_offset(k1, sz_page),
            sz_page as nat,
            page_offset(k2, sz_page),
            sz_page as nat,
        ),
        k1 < k2 ==> page_offset(k1, sz_page) < page_offset(k2, sz_page),
{
    assert(0 <= k1 * sz_page) by (nonlinear_arith)
        requires
            sz_page > 0,
    ;
    assert(0 <= k2 * sz_page) by (nonlinear_arith)
        requires
            sz_page > 0,
    ;
    if k1 < k2 {
        assert(k1 * sz_page + sz_page <= k2 * sz_page) by (nonlinear_arith)
            requires
                k1 < k2,
                sz_page > 0,
        ;
    } else {
        assert(k2 * sz_page + sz_page <= k1 * sz_page) by (nonlinear_arith)
            requires
                k2 < k1,
                sz_page > 0,
        ;
    }
}

/// Where the region changed in the bytes of page `key` only, every other page
/// reads as before.
proof fn lemma_elsewhere<R: RegionModel>(
    m: CacheModel,
    r0: R,
    r1: R,
    sz_page: i32,
    key: u32,
    k: u32,
)
    requires
        k != key,
        sz_page > 0,
        addressable(k, sz_page),
        addressable(key, sz_page),
        changes_only(r0, r1, page_offset(key, sz_page), sz_page as nat),
    ensures
        content(m, r1, sz_page, k) == content(m, r0, sz_page, k),
        r1.written(page_offset(k, sz_page)) == r0.written(page_offset(k, sz_page)),
        r1.serves(page_offset(k, sz_page), sz_page as nat) == r0.serves(
            page_offset(k, sz_page),
            sz_page as nat,
        ),
        forall|o: u32, l: nat| #[trigger] r1.accepts(o, l) == r0.accepts(o, l),
{
    lemma_pages_disjoint(k, key, sz_page);
}

/// An eviction changes what no page reads as: the victim's bytes are found in
/// the region.
pub proof fn lemma_eviction_keeps_content<R: RegionModel>(m: CacheModel, r0: R, r1: R, sz_page: i32)
    requires
        m.wf(),
        m.lru.len() > 0,
        reliable(m, r0, sz_page),
        flushed(r0, r1, m, m.lru.last(), sz_page),
    ensures
        m.evicted().wf(),
        reliable(m.evicted(), r1, sz_page),
        forall|k: u32| #[trigger]
            m.entries.contains_key(k) ==> content(m.evicted(), r1, sz_page, k) == content(
                m,
                r0,
                sz_page,
                k,
            ),
{
    let key = m.lru.last();
    let n = m.evicted();
    assert(m.lru.contains(key));
    assert(m.entries.contains_key(key));
    assert forall|k: u32| #[trigger] n.lru.contains(k) <==> n.resident(k) && !n.pinned(k) by {
        if n.lru.contains(k) {
            let j = choose|j: int| 0 <= j < n.lru.len() && n.lru[j] == k;
            assert(m.lru[j] == k);
            assert(m.lru.contains(k));
        }
        if n.resident(k) && !n.pinned(k) {
            assert(m.lru.contains(k));
            let j = choose|j: int| 0 <= j < m.lru.len() && m.lru[j] == k;
            assert(n.lru[j] == k);
        }
    }
    assert forall|k: u32| #[trigger] m.entries.contains_key(k) implies content(
        n,
        r1,
        sz_page,
        k,
    ) == content(m, r0, sz_page, k) by {
        if k != key {
            lemma_elsewhere(m, r0, r1, sz_page, key, k);
        }
    }
    assert forall|k: u32| #[trigger] n.entries.contains_key(k) implies ({
        &&& addressable(k, sz_page)
        &&& r1.accepts(page_offset(k, sz_page), sz_page as nat)
        &&& n.resident(k) ==> n.entries[k]->page.len() == sz_page
        &&& n.cold(k) && r1.written(page_offset(k, sz_page)) ==> r1.serves(
            page_offset(k, sz_page),
            sz_page as nat,
        )
    }) by {
        assert(m.entries.contains_key(k));
        if k != key {
            lemma_elsewhere(m, r0, r1, sz_page, key, k);
        }
    }
}

/// Shrinking the pool changes what no page reads as.
pub proof fn lemma_evictions_keep_content<R: RegionModel>(
    m: CacheModel,
    r0: R,
    r1: R,
    sz_page: i32,
    n: nat,
)
    requires
        m.wf(),
        n <= m.lru.len(),
        reliable(m, r0, sz_page),
        flushed_times(r0, r1, m, n, sz_page),
    ensures
        m.evicted_times(n).wf(),
        m.evicted_times(n).lru == m.lru.take(m.lru.len() - n),
        m.evicted_times(n).entries.dom() == m.entries.dom(),
        reliable(m.evicted_times(n), r1, sz_page),
        forall|k: u32| #[trigger]
            m.entries.contains_key(k) ==> content(m.evicted_times(n), r1, sz_page, k) == content(
                m,
                r0,
                sz_page,
                k,
            ),
    decreases n,
{
    if n == 0 {
        assert(m.lru.take(m.lru.len() as int) =~= m.lru);
    } else {
        let before = m.evicted_times((n - 1) as nat);
        let mid = choose|mid: R|
            flushed_times(r0, mid, m, (n - 1) as nat, sz_page) && #[trigger] flushed(
                mid,
                r1,
                before,
                before.lru.last(),
                sz_page,
            );
        lemma_evictions_keep_content(m, r0, mid, sz_page, (n - 1) as nat);
        lemma_eviction_keeps_content(before, mid, r1, sz_page);
        assert(before.lru.drop_last() =~= m.lru.take(m.lru.len() - n));
        assert(before.lru.contains(before.lru.last()));
        assert(m.evicted_times(n).entries.dom() =~= m.entries.dom());
        assert forall|k: u32| #[trigger] m.entries.contains_key(k) implies content(
            m.evicted_times(n),
            r1,
            sz_page,
            k,
        ) == content(m, r0, sz_page, k) by {
            assert(before.entries.contains_key(k));
        }
    }
}

/// Fetching a page that was not resident shows what the page reads as, whether
/// or not another page had to make room, and changes what no other page reads
/// as.
pub proof fn lemma_fetch_keeps_content<R: RegionModel>(
    m: CacheModel,
    r0: R,
    r1: R,
    sz_page: i32,
    key: u32,
    slot: usize,
    page: Seq<u8>,
    extra: Seq<u8>,
)
    requires
        m.wf(),
        !m.resident(key),
        reliable(m, r0, sz_page),
        room_effect(r0, r1, m, sz_page),
        addressable(key, sz_page),
        r0.accepts(page_offset(key, sz_page), sz_page as nat),
        m.cold(key) ==> loaded(r1, page_offset(key, sz_page), sz_page as nat, page),
        !m.cold(key) ==> page == zeros(sz_page as nat),
    ensures
        page == content(m, r0, sz_page, key),
        reliable(m.room_made().loaded(key, slot, page, extra), r1, sz_page),
        forall|k: u32| #[trigger]
            m.entries.contains_key(k) ==> content(
                m.room_made().loaded(key, slot, page, extra),
                r1,
                sz_page,
                k,
            ) == content(m, r0, sz_page, k),
{
    if m.full() && m.lru.len() > 0 {
        lemma_eviction_keeps_content(m, r0, r1, sz_page);
        assert(m.lru.contains(m.lru.last()));
    }
    if m.cold(key) {
        assert(m.entries.contains_key(key));
        assert(m.room_made().entries.contains_key(key));
        assert(content(m.room_made(), r1, sz_page, key) == content(m, r0, sz_page, key));
    }
    let n = m.room_made().loaded(key, slot, page, extra);
    assert forall|k: u32| #[trigger] m.entries.contains_key(k) implies content(n, r1, sz_page, k)
        == content(m, r0, sz_page, k) by {
        if k != key {
            assert(content(n, r1, sz_page, k) == content(m.room_made(), r1, sz_page, k));
        }
    }
    assert(reliable(m.room_made(), r1, sz_page));
    assert(r1.accepts(page_offset(key, sz_page), sz_page as nat));
    assert forall|k: u32| #[trigger] n.entries.contains_key(k) implies ({
        &&& addressable(k, sz_page)
        &&& r1.accepts(page_offset(k, sz_page), sz_page as nat)
        &&& n.resident(k) ==> n.entries[k]->page.len() == sz_page
        &&& n.cold(k) && r1.written(page_offset(k, sz_page)) ==> r1.serves(
            page_offset(k, sz_page),
            sz_page as nat,
        )
    }) by {
        if k != key {
            assert(m.room_made().entries.contains_key(k));
        }
    }
}

/// Holding a resident page changes what no page reads as.
pub proof fn lemma_hold_keeps_content<R: RegionModel>(m: CacheModel, r: R, sz_page: i32, key: u32)
    requires
        m.resident(key),
        reliable(m, r, sz_page),
    ensures
        reliable(m.held(key), r, sz_page),
        forall|k: u32| #[trigger]
            m.entries.contains_key(k) ==> content(m.held(key), r, sz_page, k) == content(
                m,
                r,
                sz_page,
                k,
            ),
{
    let n = m.held(key);
    assert(m.entries.contains_key(key));
    assert forall|k: u32| #[trigger] n.entries.contains_key(k) implies ({
        &&& addressable(k, sz_page)
        &&& r.accepts(page_offset(k, sz_page), sz_page as nat)
        &&& n.resident(k) ==> n.entries[k]->page.len() == sz_page
        &&& n.cold(k) && r.written(page_offset(k, sz_page)) ==> r.serves(
            page_offset(k, sz_page),
            sz_page as nat,
        )
    }) by {
        assert(m.entries.contains_key(k));
    }
}

/// Letting a page go changes what no page reads as, and the region then holds
/// its bytes.
pub proof fn lemma_unpin_keeps_content<R: RegionModel>(
    m: CacheModel,
    r0: R,
    r1: R,
    sz_page: i32,
    key: u32,
)
    requires
        m.pinned(key),
        reliable(m, r0, sz_page),
        flushed(r0, r1, m, key, sz_page),
    ensures
        reliable(m.let_go(key), r1, sz_page),
        r1.written(page_offset(key, sz_page)),
        r1.bytes(page_offset(key, sz_page), sz_page as nat) == m.entries[key]->page,
        forall|k: u32| #[trigger]
            m.entries.contains_key(k) ==> content(m.let_go(key), r1, sz_page, k) == content(
                m,
                r0,
                sz_page,
                k,
            ),
{
    let n = m.let_go(key);
    assert(m.entries.contains_key(key));
    assert forall|k: u32| #[trigger] m.entries.contains_key(k) implies content(n, r1, sz_page, k)
        == content(m, r0, sz_page, k) by {
        if k != key {
            lemma_elsewhere(m, r0, r1, sz_page, key, k);
        }
    }
    assert forall|k: u32| #[trigger] n.entries.contains_key(k) implies ({
        &&& addressable(k, sz_page)
        &&& r1.accepts(page_offset(k, sz_page), sz_page as nat)
        &&& n.resident(k) ==> n.entries[k]->page.len() == sz_page
        &&& n.cold(k) && r1.written(page_offset(k, sz_page)) ==> r1.serves(
            page_offset(k, sz_page),
            sz_page as nat,
        )
    }) by {
        assert(m.entries.contains_key(k));
        if k != key {
            lemma_elsewhere(m, r0, r1, sz_page, key, k);
        }
    }
}

/// A renamed page reads as before under its new key; the page that had that key
/// is gone, and every other page reads as before.
pub proof fn lemma_rekey_keeps_content<R: RegionModel>(
    m: CacheModel,
    r0: R,
    r1: R,
    sz_page: i32,
    old_key: u32,
    new_key: u32,
)
    requires
        m.wf(),
        m.resident(old_key),
        old_key != new_key,
        reliable(m, r0, sz_page),
        addressable(new_key, sz_page),
        r0.accepts(page_offset(new_key, sz_page), sz_page as nat),
        copy_effect(
            r0,
            r1,
            page_offset(old_key, sz_page),
            page_offset(new_key, sz_page),
            sz_page as nat,
        ),
    ensures
        content(m.rekeyed(old_key, new_key), r1, sz_page, new_key) == content(
            m,
            r0,
            sz_page,
            old_key,
        ),
        !m.rekeyed(old_key, new_key).entries.contains_key(old_key),
        reliable(m.rekeyed(old_key, new_key), r1, sz_page),
        forall|k: u32|
            k != old_key && k != new_key && #[trigger] m.entries.contains_key(k) ==> content(
                m.rekeyed(old_key, new_key),
                r1,
                sz_page,
                k,
            ) == content(m, r0, sz_page, k),
{
    let n = m.rekeyed(old_key, new_key);
    assert forall|k: u32|
        k != old_key && k != new_key && #[trigger] m.entries.contains_key(k) implies content(
        n,
        r1,
        sz_page,
        k,
    ) == content(m, r0, sz_page, k) by {
        lemma_elsewhere(n, r0, r1, sz_page, new_key, k);
        assert(n.entries[k] == m.entries[k]);
    }
    assert(m.entries.contains_key(old_key));
    assert forall|k: u32| #[trigger] n.entries.contains_key(k) implies ({
        &&& addressable(k, sz_page)
        &&& r1.accepts(page_offset(k, sz_page), sz_page as nat)
        &&& n.resident(k) ==> n.entries[k]->page.len() == sz_page
        &&& n.cold(k) && r1.written(page_offset(k, sz_page)) ==> r1.serves(
            page_offset(k, sz_page),
            sz_page as nat,
        )
    }) by {
        if k != new_key {
            assert(m.entries.contains_key(k));
            lemma_elsewhere(n, r0, r1, sz_page, new_key, k);
        }
    }
}

/// After a truncation no page at or above the limit is known, and the pages
/// below it read as before.
pub proof fn lemma_truncate_keeps_content<R: RegionModel>(
    m: CacheModel,
    r0: R,
    r1: R,
    sz_page: i32,
    limit: u32,
)
    requires
        reliable(m, r0, sz_page),
        cut_effect(r0, r1, limit, sz_page),
    ensures
        reliable(m.truncated(limit), r1, sz_page),
        forall|k: u32|
            k >= limit ==> !(#[trigger] m.truncated(limit).entries.contains_key(k)),
        forall|k: u32|
            k < limit && #[trigger] m.entries.contains_key(k) ==> m.truncated(
                limit,
            ).entries.contains_key(k) && content(m.truncated(limit), r1, sz_page, k) == content(
                m,
                r0,
                sz_page,
                k,
            ),
{
    let n = m.truncated(limit);
    assert forall|k: u32| k < limit && #[trigger] m.entries.contains_key(k) implies
        n.entries.contains_key(k) && content(n, r1, sz_page, k) == content(m, r0, sz_page, k) by {
        if addressable(limit, sz_page) {
            lemma_pages_disjoint(k, limit, sz_page);
        }
        assert(n.entries.contains_key(k));
        assert(n.entries[k] == m.entries[k]);
    }
    assert forall|k: u32| #[trigger] n.entries.contains_key(k) implies ({
        &&& addressable(k, sz_page)
        &&& r1.accepts(page_offset(k, sz_page), sz_page as nat)
        &&& n.resident(k) ==> n.entries[k]->page.len() == sz_page
        &&& n.cold(k) && r1.written(page_offset(k, sz_page)) ==> r1.serves(
            page_offset(k, sz_page),
            sz_page as nat,
        )
    }) by {
        assert(m.entries.contains_key(k));
        if addressable(limit, sz_page) {
            lemma_pages_disjoint(k, limit, sz_page);
        }
    }
}

/// A dropped page is unknown: fetching it without leave to create it gives
/// nothing, and its content is zeros whatever the region still holds.
pub proof fn lemma_discarded_is_gone<R: RegionModel>(m: CacheModel, r: R, sz_page: i32, key: u32)
    ensures
        m.forgotten(key).refuses(key, 0),
        content(m.forgotten(key), r, sz_page, key) == zeros(sz_page as nat),
{
}

/// Making room never takes the slot of a held page.
pub proof fn lemma_pinned_stays(m: CacheModel, key: u32)
    requires
        m.wf(),
        m.pinned(key),
    ensures
        m.room_made().entries[key] == m.entries[key],
        m.room_made().pinned(key),
{
    if m.full() && m.lru.len() > 0 {
        assert(m.lru.contains(m.lru.last()));
    }
}

/// Fetching grows the pool past its size only where every page in it is held.
pub proof fn lemma_pool_bounded(m: CacheModel, key: u32, slot: usize, page: Seq<u8>, extra: Seq<u8>)
    requires
        m.wf(),
        m.capacity > 0,
        !m.resident(key),
        m.resident_keys().len() <= m.capacity,
        m.resident_keys().len() < m.capacity || m.lru.len() > 0,
    ensures
        m.room_made().loaded(key, slot, page, extra).resident_keys().len() <= m.capacity,
{
    let a = m.room_made();
    let b = a.loaded(key, slot, page, extra);
    vstd::set_lib::lemma_len_subset(m.resident_keys(), m.entries.dom());
    assert(b.resident_keys() =~= a.resident_keys().insert(key));
    if m.full() {
        let v = m.lru.last();
        assert(m.lru.contains(v));
        assert(m.resident_keys().contains(v));
        assert(a.resident_keys() =~= m.resident_keys().remove(v));
    }
}

/// An eviction forgets no page: as many are known as before.
pub proof fn lemma_eviction_keeps_keys(m: CacheModel)
    requires
        m.wf(),
        m.lru.len() > 0,
    ensures
        m.evicted().entries.dom() == m.entries.dom(),
        m.evicted().cold(m.lru.last()),
{
    assert(m.lru.contains(m.lru.last()));
    assert(m.evicted().entries.dom() =~= m.entries.dom());
}

/// A call on a cache. A slot is named by the key of the page in it.
pub enum CacheOp {
    /// A fetch of a page with a create flag, and the slot that it gave.
    Fetch(u32, i32, Option<usize>),
    /// The bytes of a page are overwritten.
    Edit(u32, Seq<u8>),
    /// The engine's own bytes beside a page are overwritten.
    EditExtra(u32, Seq<u8>),
    /// A page is let go, or dropped where the flag is set.
    Unpin(u32, bool),
    /// The pool size changes.
    SetCachesize(i32),
    /// The pages at or above a limit are dropped.
    Truncate(u32),
    /// A page changes its key.
    Rekey(u32, u32),
}

/// A cache and its region.
pub struct CacheState<R> {
    pub m: CacheModel,
    pub r: R,
}

/// The call may be made: the pages that it names are there, and have offsets.
pub open spec fn admits(m: CacheModel, op: CacheOp, sz_page: i32) -> bool {
    match op {
        CacheOp::Fetch(key, _, _) => addressable(key, sz_page),
        CacheOp::Edit(key, page) => m.resident(key) && page.len() == sz_page,
        CacheOp::EditExtra(key, _) => m.resident(key),
        CacheOp::Unpin(key, _) => m.pinned(key),
        CacheOp::SetCachesize(_) => true,
        CacheOp::Truncate(_) => true,
        CacheOp::Rekey(old_key, new_key) => m.resident(old_key) && addressable(new_key, sz_page),
    }
}

/// The call made `b` of `a`.
pub open spec fn performed<R: RegionModel>(
    a: CacheState<R>,
    op: CacheOp,
    b: CacheState<R>,
    sz_page: i32,
    sz_extra: i32,
) -> bool {
    &&& b.m.wf()
    &&& match op {
        CacheOp::Fetch(key, create_flag, got) => match got {
            None => a.m.refuses(key, create_flag) && b == a,
            Some(slot) => !a.m.refuses(key, create_flag) && fetched(
                a.m,
                a.r,
                key,
                slot,
                b.m,
                b.r,
                sz_page,
                sz_extra,
            ),
        },
        CacheOp::Edit(key, page) => b.m == a.m.edited(key, page) && b.r == a.r,
        CacheOp::EditExtra(key, extra) => b.m == a.m.extra_edited(key, extra) && b.r == a.r,
        CacheOp::Unpin(key, discard) => if discard {
            b.m == a.m.forgotten(key) && b.r == a.r
        } else {
            b.m == a.m.let_go(key) && flushed(a.r, b.r, a.m, key, sz_page)
        },
        CacheOp::SetCachesize(n) => {
            let m = a.m.resized(n);
            &&& b.m == m.evicted_times(m.surplus())
            &&& flushed_times(a.r, b.r, m, m.surplus(), sz_page)
        },
        CacheOp::Truncate(limit) => b.m == a.m.truncated(limit) && cut_effect(
            a.r,
            b.r,
            limit,
            sz_page,
        ),
        CacheOp::Rekey(old_key, new_key) => b.m == a.m.rekeyed(old_key, new_key) && copy_effect(
            a.r,
            b.r,
            page_offset(old_key, sz_page),
            page_offset(new_key, sz_page),
            sz_page as nat,
        ),
    }
}

/// The call neither writes to page `k` nor drops or renames it.
pub open spec fn spares(op: CacheOp, k: u32) -> bool {
    match op {
        CacheOp::Fetch(_, _, _) => true,
        CacheOp::Edit(key, _) => key != k,
        CacheOp::EditExtra(_, _) => true,
        CacheOp::Unpin(key, discard) => key != k || !discard,
        CacheOp::SetCachesize(_) => true,
        CacheOp::Truncate(limit) => limit > k,
        CacheOp::Rekey(old_key, new_key) => old_key != k && new_key != k,
    }
}

/// The region takes every page that has an offset.
pub open spec fn accepting<R: RegionModel>(r: R, sz_page: i32) -> bool {
    forall|k: u32|
        addressable(k, sz_page) ==> #[trigger] r.accepts(page_offset(k, sz_page), sz_page as nat)
}

/// The call left a region that can be relied on, and changed no page that it
/// spares.
pub open spec fn keeps<R: RegionModel>(
    a: CacheState<R>,
    op: CacheOp,
    b: CacheState<R>,
    sz_page: i32,
) -> bool {
    &&& reliable(b.m, b.r, sz_page)
    &&& accepting(b.r, sz_page)
    &&& forall|k: u32| #[trigger]
        a.m.entries.contains_key(k) && spares(op, k) ==> b.m.entries.contains_key(k) && content(
            b.m,
            b.r,
            sz_page,
            k,
        ) == content(a.m, a.r, sz_page, k)
}

proof fn lemma_fetch_call<R: RegionModel>(
    a: CacheState<R>,
    b: CacheState<R>,
    sz_page: i32,
    sz_extra: i32,
    key: u32,
    create_flag: i32,
    slot: usize,
)
    requires
        a.m.wf(),
        reliable(a.m, a.r, sz_page),
        accepting(a.r, sz_page),
        addressable(key, sz_page),
        performed(a, CacheOp::Fetch(key, create_flag, Some(slot)), b, sz_page, sz_extra),
    ensures
        keeps(a, CacheOp::Fetch(key, create_flag, Some(slot)), b, sz_page),
        b.m.holds(slot, key),
{
    if a.m.resident(key) {
        lemma_hold_keeps_content(a.m, a.r, sz_page, key);
    } else {
        let page = b.m.entries[key]->page;
        let extra = zeros(sz_extra as nat);
        assert(a.r.accepts(page_offset(key, sz_page), sz_page as nat));
        lemma_fetch_keeps_content(a.m, a.r, b.r, sz_page, key, slot, page, extra);
        lemma_room_accepts(a.m, a.r, b.r, sz_page);
        assert forall|k: u32| #[trigger] a.m.entries.contains_key(k) implies
            b.m.entries.contains_key(k) by {
            assert(a.m.room_made().entries.contains_key(k));
        }
    }
}

proof fn lemma_resize_call<R: RegionModel>(
    a: CacheState<R>,
    b: CacheState<R>,
    sz_page: i32,
    sz_extra: i32,
    n: i32,
)
    requires
        a.m.wf(),
        reliable(a.m, a.r, sz_page),
        accepting(a.r, sz_page),
        performed(a, CacheOp::SetCachesize(n), b, sz_page, sz_extra),
    ensures
        keeps(a, CacheOp::SetCachesize(n), b, sz_page),
{
    let m = a.m.resized(n);
    assert forall|k: u32| #[trigger] m.lru.contains(k) <==> m.resident(k) && !m.pinned(k) by {
        assert(a.m.lru.contains(k) <==> a.m.resident(k) && !a.m.pinned(k));
    }
    assert forall|k1: u32, k2: u32| m.resident(k1) && m.resident(k2) && k1 != k2 implies #[trigger]
        m.entries[k1]->slot != #[trigger] m.entries[k2]->slot by {
        assert(a.m.resident(k1) && a.m.resident(k2));
    }
    assert(m.wf());
    assert forall|k: u32| #[trigger] m.entries.contains_key(k) implies ({
        &&& addressable(k, sz_page)
        &&& a.r.accepts(page_offset(k, sz_page), sz_page as nat)
        &&& m.resident(k) ==> m.entries[k]->page.len() == sz_page
        &&& m.cold(k) && a.r.written(page_offset(k, sz_page)) ==> a.r.serves(
            page_offset(k, sz_page),
            sz_page as nat,
        )
    }) by {
        assert(a.m.entries.contains_key(k));
    }
    lemma_evictions_keep_content(m, a.r, b.r, sz_page, m.surplus());
    lemma_flushes_accept(a.r, b.r, m, m.surplus(), sz_page);
    assert forall|k: u32| #[trigger] a.m.entries.contains_key(k) implies b.m.entries.contains_key(k)
        && content(b.m, b.r, sz_page, k) == content(a.m, a.r, sz_page, k) by {
        assert(m.entries.contains_key(k));
        assert(content(m, a.r, sz_page, k) == content(a.m, a.r, sz_page, k));
    }
}

proof fn lemma_rekey_call<R: RegionModel>(
    a: CacheState<R>,
    b: CacheState<R>,
    sz_page: i32,
    sz_extra: i32,
    old_key: u32,
    new_key: u32,
)
    requires
        a.m.wf(),
        reliable(a.m, a.r, sz_page),
        accepting(a.r, sz_page),
        admits(a.m, CacheOp::Rekey(old_key, new_key), sz_page),
        performed(a, CacheOp::Rekey(old_key, new_key), b, sz_page, sz_extra),
    ensures
        keeps(a, CacheOp::Rekey(old_key, new_key), b, sz_page),
{
    assert(a.m.entries.contains_key(old_key));
    if old_key != new_key {
        assert(a.r.accepts(page_offset(new_key, sz_page), sz_page as nat));
        lemma_rekey_keeps_content(a.m, a.r, b.r, sz_page, old_key, new_key);
    } else {
        assert forall|k: u32| #[trigger] a.m.entries.contains_key(k) && k != old_key implies content(
            b.m,
            b.r,
            sz_page,
            k,
        ) == content(a.m, a.r, sz_page, k) by {
            lemma_elsewhere(a.m, a.r, b.r, sz_page, old_key, k);
        }
        assert forall|k: u32| #[trigger] b.m.entries.contains_key(k) implies ({
            &&& addressable(k, sz_page)
            &&& b.r.accepts(page_offset(k, sz_page), sz_page as nat)
            &&& b.m.resident(k) ==> b.m.entries[k]->page.len() == sz_page
            &&& b.m.cold(k) && b.r.written(page_offset(k, sz_page)) ==> b.r.serves(
                page_offset(k, sz_page),
                sz_page as nat,
            )
        }) by {
            assert(a.m.entries.contains_key(k));
            if k != old_key {
                lemma_elsewhere(a.m, a.r, b.r, sz_page, old_key, k);
            }
        }
    }
}

/// A call on a cache over a region that can be relied on keeps it so, and changes
/// no page that it spares.
pub proof fn lemma_call_keeps_content<R: RegionModel>(
    a: CacheState<R>,
    op: CacheOp,
    b: CacheState<R>,
    sz_page: i32,
    sz_extra: i32,
)
    requires
        a.m.wf(),
        reliable(a.m, a.r, sz_page),
        accepting(a.r, sz_page),
        admits(a.m, op, sz_page),
        performed(a, op, b, sz_page, sz_extra),
    ensures
        keeps(a, op, b, sz_page),
{
    match op {
        CacheOp::Fetch(key, create_flag, got) => {
            if got is Some {
                lemma_fetch_call(a, b, sz_page, sz_extra, key, create_flag, got->0);
            }
        },
        CacheOp::Edit(key, page) => {
            assert(a.m.entries.contains_key(key));
            lemma_same_region(a, b, sz_page);
        },
        CacheOp::EditExtra(key, extra) => {
            assert(a.m.entries.contains_key(key));
            lemma_same_region(a, b, sz_page);
        },
        CacheOp::Unpin(key, discard) => {
            if discard {
                lemma_same_region(a, b, sz_page);
            } else {
                lemma_unpin_keeps_content(a.m, a.r, b.r, sz_page, key);
            }
        },
        CacheOp::SetCachesize(n) => lemma_resize_call(a, b, sz_page, sz_extra, n),
        CacheOp::Truncate(limit) => {
            lemma_truncate_keeps_content(a.m, a.r, b.r, sz_page, limit);
        },
        CacheOp::Rekey(old_key, new_key) => {
            lemma_rekey_call(a, b, sz_page, sz_extra, old_key, new_key)
        },
    }
}

/// A call that only changes what is resident.
proof fn lemma_same_region<R: RegionModel>(a: CacheState<R>, b: CacheState<R>, sz_page: i32)
    requires
        reliable(a.m, a.r, sz_page),
        b.r == a.r,
        forall|k: u32| #[trigger]
            b.m.entries.contains_key(k) ==> a.m.entries.contains_key(k) && (b.m.entries[k]
                == a.m.entries[k] || b.m.resident(k) && b.m.entries[k]->page.len() == sz_page),
    ensures
        reliable(b.m, b.r, sz_page),
{
    assert forall|k: u32| #[trigger] b.m.entries.contains_key(k) implies ({
        &&& addressable(k, sz_page)
        &&& b.r.accepts(page_offset(k, sz_page), sz_page as nat)
        &&& b.m.resident(k) ==> b.m.entries[k]->page.len() == sz_page
        &&& b.m.cold(k) && b.r.written(page_offset(k, sz_page)) ==> b.r.serves(
            page_offset(k, sz_page),
            sz_page as nat,
        )
    }) by {
        assert(a.m.entries.contains_key(k));
    }
}

/// Making room leaves what the region takes.
proof fn lemma_room_accepts<R: RegionModel>(m: CacheModel, r0: R, r1: R, sz_page: i32)
    requires
        room_effect(r0, r1, m, sz_page),
    ensures
        forall|o: u32, l: nat| #[trigger] r1.accepts(o, l) == r0.accepts(o, l),
{
}

/// Flushing pages leaves what the region takes.
proof fn lemma_flushes_accept<R: RegionModel>(r0: R, r1: R, m: CacheModel, n: nat, sz_page: i32)
    requires
        flushed_times(r0, r1, m, n, sz_page),
    ensures
        forall|o: u32, l: nat| #[trigger] r1.accepts(o, l) == r0.accepts(o, l),
    decreases n,
{
    if n > 0 {
        let before = m.evicted_times((n - 1) as nat);
        let mid = choose|mid: R|
            flushed_times(r0, mid, m, (n - 1) as nat, sz_page) && #[trigger] flushed(
                mid,
                r1,
                before,
                before.lru.last(),
                sz_page,
            );
        lemma_flushes_accept(r0, mid, m, (n - 1) as nat, sz_page);
    }
}

/// The call `i` of `ops` may be made, and leads to the next state.
pub open spec fn stepped<R: RegionModel>(
    states: Seq<CacheState<R>>,
    ops: Seq<CacheOp>,
    sz_page: i32,
    sz_extra: i32,
    i: int,
) -> bool {
    &&& admits(states[i].m, ops[i], sz_page)
    &&& performed(states[i], ops[i], states[i + 1], sz_page, sz_extra)
}

/// `states` are the states that the calls `ops` lead a fresh cache through, over
/// a region that takes every page.
pub open spec fn history<R: RegionModel>(
    states: Seq<CacheState<R>>,
    ops: Seq<CacheOp>,
    sz_page: i32,
    sz_extra: i32,
) -> bool {
    &&& sz_page > 0
    &&& states.len() == ops.len() + 1
    &&& states[0].m.wf()
    &&& states[0].m.entries.dom() == Set::<u32>::empty()
    &&& accepting(states[0].r, sz_page)
    &&& forall|i: int|
        0 <= i < ops.len() ==> #[trigger] stepped(states, ops, sz_page, sz_extra, i)
}

proof fn lemma_history_reliable<R: RegionModel>(
    states: Seq<CacheState<R>>,
    ops: Seq<CacheOp>,
    sz_page: i32,
    sz_extra: i32,
    n: int,
)
    requires
        history(states, ops, sz_page, sz_extra),
        0 <= n <= ops.len(),
    ensures
        states[n].m.wf(),
        reliable(states[n].m, states[n].r, sz_page),
        accepting(states[n].r, sz_page),
    decreases n,
{
    if n > 0 {
        lemma_history_reliable(states, ops, sz_page, sz_extra, n - 1);
        let a = states[n - 1];
        assert(stepped(states, ops, sz_page, sz_extra, n - 1));
        lemma_call_keeps_content(a, ops[n - 1], states[n - 1 + 1], sz_page, sz_extra);
    }
}

/// Over any calls on a cache, a page that they spare reads as before.
pub proof fn lemma_spared_page_keeps_content<R: RegionModel>(
    states: Seq<CacheState<R>>,
    ops: Seq<CacheOp>,
    sz_page: i32,
    sz_extra: i32,
    k: u32,
    from: int,
    to: int,
)
    requires
        history(states, ops, sz_page, sz_extra),
        0 <= from <= to <= ops.len(),
        states[from].m.entries.contains_key(k),
        forall|i: int| from <= i < to ==> spares(#[trigger] ops[i], k),
    ensures
        states[to].m.entries.contains_key(k),
        content(states[to].m, states[to].r, sz_page, k) == content(
            states[from].m,
            states[from].r,
            sz_page,
            k,
        ),
    decreases to - from,
{
    if from < to {
        lemma_spared_page_keeps_content(states, ops, sz_page, sz_extra, k, from, to - 1);
        lemma_history_reliable(states, ops, sz_page, sz_extra, to - 1);
        let a = states[to - 1];
        assert(stepped(states, ops, sz_page, sz_extra, to - 1));
        assert(spares(ops[to - 1], k));
        lemma_call_keeps_content(a, ops[to - 1], states[to - 1 + 1], sz_page, sz_extra);
    }
}

/// Over any calls on a cache whose region takes every page: a page that was let
/// go and spared since reads back, at the next fetch that gives a slot, the bytes
/// that it was let go with, whether or not it was evicted meanwhile.
pub proof fn lemma_page_reads_back<R: RegionModel>(
    states: Seq<CacheState<R>>,
    ops: Seq<CacheOp>,
    sz_page: i32,
    sz_extra: i32,
    k: u32,
    create_flag: i32,
    slot: usize,
    left: int,
    back: int,
)
    requires
        history(states, ops, sz_page, sz_extra),
        0 <= left < back < ops.len(),
        ops[left] == CacheOp::Unpin(k, false),
        ops[back] == CacheOp::Fetch(k, create_flag, Some(slot)),
        forall|i: int| left < i < back ==> spares(#[trigger] ops[i], k),
    ensures
        states[back + 1].m.holds(slot, k),
        states[back + 1].m.entries[k]->page == states[left].m.entries[k]->page,
{
    let a = states[left];
    assert(stepped(states, ops, sz_page, sz_extra, left));
    assert(a.m.entries.contains_key(k));
    assert(spares(ops[left], k));
    lemma_spared_page_keeps_content(states, ops, sz_page, sz_extra, k, left, back);
    let c = states[back];
    assert(stepped(states, ops, sz_page, sz_extra, back));
    lemma_history_reliable(states, ops, sz_page, sz_extra, back);
    lemma_fetch_call(c, states[back + 1], sz_page, sz_extra, k, create_flag, slot);
}

/// A page that a fetch creates is zeros, and so are the engine's own bytes beside
/// it.
pub proof fn lemma_created_page_is_zeros<R: RegionModel>(
    a: CacheState<R>,
    b: CacheState<R>,
    sz_page: i32,
    sz_extra: i32,
    key: u32,
    create_flag: i32,
    slot: usize,
)
    requires
        !a.m.entries.contains_key(key),
        performed(a, CacheOp::Fetch(key, create_flag, Some(slot)), b, sz_page, sz_extra),
    ensures
        b.m.holds(slot, key),
        b.m.entries[key]->page == zeros(sz_page as nat),
        b.m.entries[key]->extra == zeros(sz_extra as nat),
{
}

} // verus!
