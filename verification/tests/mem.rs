//! The allocator's block layout and counts.
#![allow(non_snake_case)]

use sqlite_wasm::install::InstallGate;
use sqlite_wasm::mem::{
    alloc_with_header, diagnostics, header_for, install, plan_realloc, x_free, x_malloc, x_realloc,
    x_roundup, x_size, MemCounts, ReallocPlan, ALIGN, HEADER_SIZE,
};

fn malloc(counts: &mut MemCounts, size: i32) -> Option<Vec<u8>> {
    let total = x_malloc(size)?;
    let mut block = vec![0xeeu8; total];
    alloc_with_header(counts, size, &mut block);
    Some(block)
}

fn realloc(counts: &mut MemCounts, block: Option<Vec<u8>>, size: i32) -> Option<Vec<u8>> {
    match plan_realloc(block.is_some(), size) {
        ReallocPlan::Malloc => malloc(counts, size),
        ReallocPlan::Free => {
            x_free(counts, block.as_deref());
            None
        }
        ReallocPlan::Move(total) => {
            let mut fresh = vec![0xddu8; total];
            x_realloc(counts, &block.unwrap(), size, &mut fresh);
            Some(fresh)
        }
        ReallocPlan::Refuse => None,
    }
}

#[test]
fn round_trip_malloc_size_free() {
    let mut counts = MemCounts::new();
    let p = malloc(&mut counts, 128);
    assert!(p.is_some());
    assert_eq!(x_size(p.as_deref()), 128, "xSize should return original request");
    assert_eq!(x_free(&mut counts, p.as_deref()), Some(128 + HEADER_SIZE));
    assert_eq!(diagnostics(&counts), (1, 1, 0, 0, 128));
}

#[test]
fn realloc_preserves_bytes_up_to_min_of_old_and_new() {
    let mut counts = MemCounts::new();
    let mut p = malloc(&mut counts, 8);
    assert!(p.is_some());
    p.as_mut().unwrap()[HEADER_SIZE..].copy_from_slice(&0xDEADBEEF_CAFEBABEu64.to_le_bytes());
    let p2 = realloc(&mut counts, p, 32);
    assert!(p2.is_some());
    assert_eq!(x_size(p2.as_deref()), 32);
    let bytes = &p2.as_ref().unwrap()[HEADER_SIZE..];
    assert_eq!(
        u64::from_le_bytes([
            bytes[0], bytes[1], bytes[2], bytes[3], bytes[4], bytes[5], bytes[6], bytes[7]
        ]),
        0xDEADBEEF_CAFEBABE,
        "realloc must preserve the prefix"
    );
    let p3 = realloc(&mut counts, p2, 4);
    assert!(p3.is_some());
    assert_eq!(x_size(p3.as_deref()), 4);
    let bytes = &p3.as_ref().unwrap()[HEADER_SIZE..];
    assert_eq!(u32::from_le_bytes([bytes[0], bytes[1], bytes[2], bytes[3]]), 0xCAFEBABE);
    x_free(&mut counts, p3.as_deref());
    assert_eq!(diagnostics(&counts), (1, 1, 2, 0, 32));
}

#[test]
fn realloc_null_is_malloc() {
    let mut counts = MemCounts::new();
    let p = realloc(&mut counts, None, 64);
    assert!(p.is_some());
    assert_eq!(x_size(p.as_deref()), 64);
    x_free(&mut counts, p.as_deref());
}

#[test]
fn realloc_zero_is_free() {
    let mut counts = MemCounts::new();
    let p = malloc(&mut counts, 32);
    let p2 = realloc(&mut counts, p, 0);
    assert!(p2.is_none());
    assert_eq!(diagnostics(&counts), (1, 1, 0, 0, 32));
}

#[test]
fn xroundup_aligns_to_ALIGN() {
    assert_eq!(x_roundup(1), ALIGN as i32);
    assert_eq!(x_roundup(ALIGN as i32), ALIGN as i32);
    assert_eq!(x_roundup(ALIGN as i32 + 1), (ALIGN * 2) as i32);
}

#[test]
fn requests_for_nothing_are_refused() {
    assert_eq!(x_malloc(0), None);
    assert_eq!(x_malloc(-3), None);
    assert_eq!(x_malloc(1), Some(17));
    assert_eq!(x_size(None), 0);
    assert_eq!(x_roundup(0), 0);
    assert_eq!(x_roundup(i32::MAX), i32::MIN);
    let mut counts = MemCounts::new();
    assert_eq!(x_free(&mut counts, None), None);
    assert_eq!(diagnostics(&counts), (0, 0, 0, 0, 0));
    assert_eq!(plan_realloc(false, 0), ReallocPlan::Malloc);
    assert_eq!(plan_realloc(true, 16), ReallocPlan::Move(32));
}

#[test]
fn counts_follow_the_blocks() {
    let mut counts = MemCounts::new();
    let mut live: Vec<Vec<u8>> = Vec::new();
    let mut last = diagnostics(&counts);
    for i in 1..60 {
        match i % 5 {
            0 => {
                let gone = live.remove(0);
                x_free(&mut counts, Some(&gone));
            }
            1 => {
                let old = live.pop();
                live.extend(realloc(&mut counts, old, i * 3));
            }
            2 => {
                let old = live.pop();
                live.extend(realloc(&mut counts, old, 1));
            }
            _ => live.extend(malloc(&mut counts, i * 2)),
        }
        let now = diagnostics(&counts);
        let in_use: i32 = live.iter().map(|b| x_size(Some(b))).sum();
        assert_eq!(now.3, in_use as u64);
        assert_eq!(now.0 - now.1, live.len() as u64);
        assert!(now.4 >= now.3);
        assert!(now.0 >= last.0 && now.1 >= last.1 && now.2 >= last.2 && now.4 >= last.4);
        last = now;
    }
}

#[test]
fn bytes_in_use_follow_the_blocks() {
    let mut counts = MemCounts::new();
    let a = malloc(&mut counts, 100);
    let b = malloc(&mut counts, 10);
    let b = realloc(&mut counts, b, 60);
    assert_eq!(diagnostics(&counts).3, 160);
    x_free(&mut counts, a.as_deref());
    assert_eq!(diagnostics(&counts), (2, 1, 1, 60, 160));
    assert_eq!(header_for(b.as_ref().unwrap()), 60);
}

#[test]
fn mem_install_reports_the_boot_order() {
    let mut gate = InstallGate::new();
    assert!(gate.claim());
    let e = install(&mut gate, 21).unwrap_err();
    assert_eq!(
        e.message,
        "sqlite3_config(SQLITE_CONFIG_MALLOC) failed; must be called before sqlite3_initialize"
    );
    assert!(gate.claim());
    assert!(install(&mut gate, 0).is_ok());
}
