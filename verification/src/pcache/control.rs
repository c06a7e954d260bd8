//! The page cache as the engine drives it: registration and diagnostics.

use crate::counters::{bumped, Counter};
use crate::codes::SQLITE_OK;
use crate::install::{InstallError, InstallGate};
use crate::pcache::cache::ShadowCache;
use crate::pcache::region::Region;
use vstd::prelude::*;

verus! {

/// What the diagnostics show: fetches, unpins, the pool size last asked for,
/// and how many pages were resident at the last fetch.
pub struct CacheDiagnostics {
    n_fetch: Counter,
    n_unpin: Counter,
    last_cachesize: u32,
    last_shadow_count: u32,
}

impl View for CacheDiagnostics {
    type V = (u32, u32, u32, u32);

    closed spec fn view(&self) -> (u32, u32, u32, u32) {
        (self.n_fetch@, self.n_unpin@, self.last_cachesize, self.last_shadow_count)
    }
}

impl CacheDiagnostics {
    /// Nothing has happened yet.
    pub fn new() -> (r: Self)
        ensures
            r@ == (0u32, 0u32, 0u32, 0u32),
    {
        CacheDiagnostics {
            n_fetch: Counter::new(),
            n_unpin: Counter::new(),
            last_cachesize: 0,
            last_shadow_count: 0,
        }
    }

    /// Notes a fetch from a cache with `shadow_count` resident pages.
    pub fn note_fetch(&mut self, shadow_count: u32)
        ensures
            final(self)@ == (bumped(old(self)@.0), old(self)@.1, old(self)@.2, shadow_count),
    {
        self.n_fetch.bump();
        self.last_shadow_count = shadow_count;
    }

    /// Notes an unpin.
    pub fn note_unpin(&mut self)
        ensures
            final(self)@ == (old(self)@.0, bumped(old(self)@.1), old(self)@.2, old(self)@.3),
    {
        self.n_unpin.bump();
    }

    /// Notes a request for the pool size `n`, as its 32 bits.
    pub fn note_cachesize(&mut self, n: i32)
        ensures
            final(self)@ == (old(self)@.0, old(self)@.1, n as u32, old(self)@.3),
    {
        self.last_cachesize = n as u32;
    }
}

/// (fetches, unpins, last pool size asked for, resident pages at the last
/// fetch).
pub fn cache_diagnostics(d: &CacheDiagnostics) -> (r: (u32, u32, u32, u32))
    ensures
        r == d@,
{
    (d.n_fetch.get(), d.n_unpin.get(), d.last_cachesize, d.last_shadow_count)
}

/// A fresh cache over a default region. `purgeable` is a flag of the engine's:
/// any value but 0 sets it.
pub fn new_active_cache<R: Region>(sz_page: i32, sz_extra: i32, purgeable: i32, region: R) -> (r:
    ShadowCache<R>)
    requires
        0 <= sz_page,
        0 <= sz_extra,
        region.inv(),
    ensures
        r.wf(),
        r.sz_page() == sz_page,
        r.sz_extra() == sz_extra,
        r.purgeable() == (purgeable != 0),
        r.region() == region,
        r@.entries.dom() == Set::<u32>::empty(),
        r@.lru == Seq::<u32>::empty(),
        r@.capacity == crate::pcache::cache::DEFAULT_SHADOW_CAPACITY,
{
    let r = ShadowCache::new(sz_page, sz_extra, purgeable != 0, region);
    assert(r@.entries.dom() =~= Set::<u32>::empty());
    r
}

/// The text of a registration that the engine refused.
pub open spec fn refused_text() -> Seq<char> {
    "sqlite3_config(SQLITE_CONFIG_PCACHE2) failed; must be called before sqlite3_initialize"@
}

/// Settles the registration of the page cache by the engine's answer.
pub fn install(gate: &mut InstallGate, rc: i32) -> (r: Result<(), InstallError>)
    requires
        old(gate)@,
    ensures
        final(gate)@ == (rc == SQLITE_OK),
        match r {
            Ok(()) => rc == SQLITE_OK,
            Err(e) => rc != SQLITE_OK && e.code == rc && e.message@ == refused_text(),
        },
{
    gate.finish(
        rc,
        "sqlite3_config(SQLITE_CONFIG_PCACHE2) failed; must be called before sqlite3_initialize",
    )
}

} // verus!
