//! The page cache over the in-process region, and the regions themselves.

use sqlite_wasm::counters::Counter;
use sqlite_wasm::install::InstallGate;
use sqlite_wasm::pcache::cache::{LookupEntry, ShadowCache, DEFAULT_SHADOW_CAPACITY};
use sqlite_wasm::pcache::control::{cache_diagnostics, install, new_active_cache, CacheDiagnostics};
use sqlite_wasm::pcache::lru::LruList;
use sqlite_wasm::pcache::multi_memory_region::{self, MultiMemoryRegion, PoolSpan};
use sqlite_wasm::pcache::region::{InProcRegion, Region, RegionError};
use sqlite_wasm::pcache::wit_tvm_region::{self, CopyRequest, WitTvmRegion, WriteRequest};
use sqlite_wasm::slices::SliceCursor;

fn cache_with_capacity(cap: u32) -> ShadowCache<InProcRegion> {
    let mut c = ShadowCache::new(64, 8, true, InProcRegion::new());
    c.set_cachesize(cap as i32);
    c
}

#[test]
fn fetch_then_unpin_keeps_page_in_shadow_until_evicted() {
    let mut c = cache_with_capacity(4);
    let page = c.fetch(1, 1);
    assert!(page.is_some(), "fresh fetch with create=1 should allocate");
    let page = page.unwrap();
    c.page_bytes_mut(page).fill(0xab);
    c.unpin(page, false);
    assert_eq!(c.page_count(), 1);

    let page2 = c.fetch(1, 0);
    assert!(page2.is_some(), "re-fetch of unpinned shadow page should hit");
    let page2 = page2.unwrap();
    assert!(c.page_bytes(page2).iter().all(|b| *b == 0xab), "shadow bytes preserved");
    assert_eq!(c.page_bytes(page2).len(), 64);
    c.unpin(page2, false);
}

#[test]
fn shadow_overflow_evicts_lru_tail_to_region() {
    let mut c = cache_with_capacity(3);
    for key in 1..=3u32 {
        let p = c.fetch(key, 1);
        assert!(p.is_some());
        let p = p.unwrap();
        c.page_bytes_mut(p).fill(key as u8);
        c.unpin(p, false);
    }
    let p4 = c.fetch(4, 1);
    assert!(p4.is_some());
    let p4 = p4.unwrap();
    c.page_bytes_mut(p4).fill(4);
    c.unpin(p4, false);
    let p1_again = c.fetch(1, 0);
    assert!(p1_again.is_some(), "cold-tier page 1 should promote on create=0 fetch");
    let p1_again = p1_again.unwrap();
    assert!(
        c.page_bytes(p1_again).iter().all(|b| *b == 1),
        "promoted bytes should match what we wrote before eviction"
    );
    assert_eq!(c.page_bytes(p1_again).len(), 64);
    c.unpin(p1_again, false);
}

#[test]
fn lru_promote_on_hit_protects_recent_pages() {
    let mut c = cache_with_capacity(3);
    for key in 1..=3u32 {
        let p = c.fetch(key, 1).unwrap();
        c.page_bytes_mut(p).fill(key as u8);
        c.unpin(p, false);
    }
    let p1 = c.fetch(1, 0).unwrap();
    c.unpin(p1, false);
    let p4 = c.fetch(4, 1).unwrap();
    c.page_bytes_mut(p4).fill(4);
    assert_eq!(c.page_bytes(p4).len(), 64);
    c.unpin(p4, false);
    match c.lookup(1).expect("page 1 still tracked") {
        LookupEntry::Shadow(_) => {}
        LookupEntry::Cold => panic!("page 1 should be in shadow (LRU promoted it)"),
    }
    match c.lookup(2).expect("page 2 still tracked") {
        LookupEntry::Cold => {}
        LookupEntry::Shadow(_) => panic!("page 2 should have been evicted"),
    }
}

#[test]
fn discard_drops_page_entirely() {
    let mut c = cache_with_capacity(2);
    let p = c.fetch(1, 1).unwrap();
    c.page_bytes_mut(p).fill(0xab);
    assert_eq!(c.page_bytes(p).len(), 64);
    c.unpin(p, true);
    let probe = c.fetch(1, 0);
    assert!(probe.is_none(), "discarded page should not resurface");
}

#[test]
fn truncate_drops_pages_above_limit() {
    let mut c = cache_with_capacity(8);
    for key in 1..=5 {
        let p = c.fetch(key, 1).unwrap();
        c.unpin(p, false);
    }
    c.truncate(3);
    assert_eq!(c.page_count(), 2);
    assert!(c.lookup(1).is_some());
    assert!(c.lookup(2).is_some());
    assert!(c.lookup(3).is_none());
}

#[test]
fn truncating_above_every_offset_drops_nothing() {
    let mut c = cache_with_capacity(1);
    let p = c.fetch(1, 1).unwrap();
    c.page_bytes_mut(p).fill(1);
    c.unpin(p, false);
    let q = c.fetch(2, 1).unwrap();
    c.unpin(q, false);
    c.truncate(0x0400_0000);
    assert_eq!(c.page_count(), 2);
    let p = c.fetch(1, 0).unwrap();
    assert!(c.page_bytes(p).iter().all(|b| *b == 1));
    c.unpin(p, false);
    c.truncate(0);
    assert_eq!(c.page_count(), 0);
}

#[test]
fn shrinking_xcachesize_evicts_to_fit() {
    let mut c = cache_with_capacity(5);
    for key in 1..=5 {
        let p = c.fetch(key, 1).unwrap();
        c.unpin(p, false);
    }
    assert_eq!(c.shadow_count(), 5);
    c.set_cachesize(2);
    assert_eq!(c.shadow_count(), 2);
    assert_eq!(c.page_count(), 5);
}

#[test]
fn discarded_page_comes_back_zeroed() {
    let mut c = cache_with_capacity(2);
    let p = c.fetch(7, 1).unwrap();
    c.page_bytes_mut(p).fill(9);
    c.extra_bytes_mut(p).fill(9);
    c.unpin(p, false);
    let p = c.fetch(7, 1).unwrap();
    c.unpin(p, true);
    let p = c.fetch(7, 1).unwrap();
    assert!(c.page_bytes(p).iter().all(|b| *b == 0));
    assert!(c.extra_bytes_mut(p).iter().all(|b| *b == 0));
    assert_eq!(c.key_of(p), 7);
}

#[test]
fn pinned_pages_are_never_evicted() {
    let mut c = cache_with_capacity(2);
    let p1 = c.fetch(1, 1).unwrap();
    let p2 = c.fetch(2, 1).unwrap();
    assert_eq!(c.fetch(3, 1), None, "every slot is held and the pool must not grow");
    let p3 = c.fetch(3, 2).expect("with leave to grow there is a slot");
    assert_eq!(c.shadow_count(), 3);
    assert!(matches!(c.lookup(1), Some(LookupEntry::Shadow(s)) if s == p1));
    assert!(matches!(c.lookup(2), Some(LookupEntry::Shadow(s)) if s == p2));
    c.unpin(p3, false);
    c.set_cachesize(-5);
    assert_eq!(c.shadow_capacity(), 0);
    assert_eq!(c.shadow_count(), 2, "held pages stay");
    assert!(matches!(c.lookup(3), Some(LookupEntry::Cold)));
}

#[test]
fn rekey_moves_a_page_and_drops_the_one_in_its_place() {
    let mut c = cache_with_capacity(4);
    for key in 1..=2u32 {
        let p = c.fetch(key, 1).unwrap();
        c.page_bytes_mut(p).fill(key as u8);
        c.unpin(p, false);
    }
    let p1 = c.fetch(1, 0).unwrap();
    c.rekey(p1, 1, 2);
    assert_eq!(c.page_count(), 1);
    assert_eq!(c.shadow_count(), 1);
    assert!(c.lookup(1).is_none());
    assert_eq!(c.key_of(p1), 2);
    assert!(c.page_bytes(p1).iter().all(|b| *b == 1));
    c.unpin(p1, false);
    c.set_cachesize(0);
    let p2 = c.fetch(2, 2).unwrap();
    assert!(c.page_bytes(p2).iter().all(|b| *b == 1), "bytes survive under the new key");
}

#[test]
fn a_fresh_cache_is_empty() {
    let c = new_active_cache(512, 16, 1, InProcRegion::default());
    assert_eq!(c.page_count(), 0);
    assert_eq!(c.shadow_count(), 0);
    assert_eq!(c.shadow_capacity(), DEFAULT_SHADOW_CAPACITY);
    assert_eq!(DEFAULT_SHADOW_CAPACITY, 100);
}

#[test]
fn diagnostics_count_the_calls() {
    let mut d = CacheDiagnostics::new();
    assert_eq!(cache_diagnostics(&d), (0, 0, 0, 0));
    d.note_fetch(3);
    d.note_fetch(5);
    d.note_unpin();
    d.note_cachesize(-1);
    assert_eq!(cache_diagnostics(&d), (2, 1, u32::MAX, 5));
}

#[test]
fn pcache_install_happens_once_and_can_be_retried() {
    let mut gate = InstallGate::new();
    assert!(gate.claim());
    let e = install(&mut gate, 21).unwrap_err();
    assert_eq!(e.code, 21);
    assert_eq!(
        e.display(),
        "sqlite3_config(SQLITE_CONFIG_PCACHE2) failed; must be called before sqlite3_initialize (code 21)"
    );
    assert!(!gate.is_installed());
    assert!(gate.claim());
    assert!(install(&mut gate, 0).is_ok());
    assert!(!gate.claim());
    assert!(gate.is_installed());
}

#[test]
fn recency_list_keeps_its_order() {
    let mut l = LruList::new();
    l.grow();
    l.grow();
    l.grow();
    assert_eq!(l.tail(), None);
    l.push_front(0);
    l.push_front(1);
    l.push_front(2);
    assert_eq!(l.tail(), Some(0));
    l.remove(0);
    assert_eq!(l.tail(), Some(1));
    l.push_front(0);
    l.remove(1);
    assert_eq!(l.tail(), Some(2));
    l.remove(0);
    l.remove(2);
    assert_eq!(l.tail(), None);
}

#[test]
fn in_proc_region_checks_lengths() {
    let mut r = InProcRegion::new();
    assert!(r.read(0, 4).unwrap().is_none());
    r.write(64, &[1, 2, 3, 4]).unwrap();
    assert_eq!(r.read(64, 4).unwrap().unwrap(), vec![1, 2, 3, 4]);
    let e = r.read(64, 5).unwrap_err();
    assert_eq!(
        e.message(),
        "region backing error: in-proc region: offset 64 has 4 bytes, requested 5"
    );
    r.copy(64, 128, 4).unwrap();
    assert_eq!(r.read(128, 4).unwrap().unwrap(), vec![1, 2, 3, 4]);
    let RegionError::Backing(s) = r.copy(64, 128, 3).unwrap_err();
    assert_eq!(s, "in-proc region: copy len mismatch at src 64: 4 != 3");
    r.copy(1, 2, 3).unwrap();
    assert_eq!(r.page_count(), 2);
    r.truncate_above(128).unwrap();
    assert_eq!(r.page_count(), 1);
    assert!(r.read(128, 4).unwrap().is_none());
}

#[test]
fn pool_regions_get_disjoint_slices() {
    let slice = multi_memory_region::SLICE_BYTES;
    let mut cursor = SliceCursor::new(slice);
    let mut regions = Vec::new();
    for _ in 0..15 {
        regions.push(MultiMemoryRegion::new(&mut cursor).unwrap());
    }
    let RegionError::Backing(s) = MultiMemoryRegion::new(&mut cursor).err().unwrap();
    assert_eq!(
        s,
        "pcache pool 1 slice cursor overflowed (base=4026531840, slice=268435456); increase --max-pages at link time or reduce slice count"
    );
    assert!(MultiMemoryRegion::new(&mut cursor).is_err(), "a full pool stays full");
    let mut writes = Counter::new();
    let second = &mut regions[1];
    assert_eq!(second.read(4096, 512).unwrap(), None);
    assert_eq!(
        second.write(&mut writes, 4096, 512).unwrap(),
        PoolSpan { addr: slice + 4096, len: 512 }
    );
    assert_eq!(
        second.read(4096, 512).unwrap(),
        Some(PoolSpan { addr: slice + 4096, len: 512 })
    );
    assert_eq!(
        second.copy(4096, 8192, 512).unwrap(),
        Some((PoolSpan { addr: slice + 4096, len: 512 }, PoolSpan { addr: slice + 8192, len: 512 }))
    );
    assert_eq!(second.copy(1, 2, 3).unwrap(), None);
    second.truncate_above(8192);
    assert_eq!(second.read(8192, 512).unwrap(), None);
    assert!(second.read(4096, 512).unwrap().is_some());
    let RegionError::Backing(s) = second.write(&mut writes, slice - 1, 2).unwrap_err();
    assert_eq!(
        s,
        "pcache region access out of slice: offset=268435455, len=2, capacity=268435456"
    );
    let RegionError::Backing(s) = second.write(&mut writes, u32::MAX, 2).unwrap_err();
    assert_eq!(s, "pcache region access overflow: offset=4294967295, len=2");
    assert_eq!(multi_memory_region::lifetime_write_count(&writes), 3);
}

#[test]
fn handle_region_asks_for_what_it_needs() {
    let e = WitTvmRegion::<u64>::new(Err("OutOfMemory".to_string())).err().unwrap();
    assert_eq!(e.message(), "region backing error: tvm-error: OutOfMemory");
    let mut r = WitTvmRegion::<u64>::new(Ok(3)).unwrap();
    assert_eq!(r.region_id(), 3);
    let mut writes = Counter::new();
    assert!(r.read(64).is_none());
    assert!(matches!(r.write(&mut writes, 64, 512), WriteRequest::Allocate(512)));
    assert!(r.allocated(64, Err("Full".to_string())).is_err());
    assert_eq!(r.allocated(64, Ok(77)).unwrap(), 77);
    assert!(matches!(r.write(&mut writes, 64, 512), WriteRequest::Store(77)));
    assert_eq!(r.read(64), Some(77));
    assert!(matches!(r.copy(1, 64), CopyRequest::Nothing));
    assert!(matches!(r.copy(64, 128), CopyRequest::Allocate(77)));
    r.allocated(128, Ok(78)).unwrap();
    assert!(matches!(r.copy(64, 128), CopyRequest::Copy(77, 78)));
    assert_eq!(
        WitTvmRegion::<u64>::read_reply(64, 2, Ok(vec![1, 2])).unwrap(),
        Some(vec![1, 2])
    );
    let RegionError::Backing(s) = WitTvmRegion::<u64>::read_reply(64, 2, Ok(vec![1])).unwrap_err();
    assert_eq!(s, "tvm region read: expected 2 bytes at offset 64, got 1");
    assert!(WitTvmRegion::<u64>::settle(Ok(())).is_ok());
    assert!(WitTvmRegion::<u64>::settle(Err("x".to_string())).is_err());
    assert_eq!(r.truncate_above(128), vec![78]);
    assert!(r.read(128).is_none());
    assert_eq!(wit_tvm_region::lifetime_write_count(&writes), 2);
}
