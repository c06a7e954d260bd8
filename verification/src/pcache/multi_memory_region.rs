//! Cold storage in a slice of a memory pool of its own.
//!
//! A region owns the pool bytes `[base, base + SLICE_BYTES)` and keeps track of
//! the offsets that were written. It decides every access; the pool itself is
//! reached by whoever runs the accesses it hands out.

use crate::bytes::splice;
use crate::counters::{bumped, Counter};
use crate::pcache::region::RegionError;
use crate::slices::SliceCursor;
use crate::tables::{keys_from, lemma_keys_gone};
use crate::text::{decimal, push_decimal};
use std::collections::HashMap;
use vstd::prelude::*;
use vstd::string::*;

verus! {

/// The pool that holds page bytes.
pub const PCACHE_POOL: u32 = 1;

/// How many bytes of the pool a region owns.
pub const SLICE_BYTES: u32 = 268435456;

/// A range of pool bytes to be read or written.
#[derive(Copy, Clone, Debug, PartialEq, Eq, Structural)]
pub struct PoolSpan {
    pub addr: u32,
    pub len: u32,
}

/// How many writes every region so far was asked for.
pub fn lifetime_write_count(writes: &Counter) -> (r: u32)
    ensures
        r == writes@,
{
    writes.get()
}

/// A region in a slice of the pool.
pub struct MultiMemoryRegion {
    base: u32,
    written: HashMap<u32, ()>,
}

impl View for MultiMemoryRegion {
    type V = Set<u32>;

    /// The offsets that were written.
    closed spec fn view(&self) -> Set<u32> {
        self.written@.dom()
    }
}

/// The text of a pool that has no slice left.
pub open spec fn cursor_overflow(base: u32) -> Seq<char> {
    "pcache pool 1 slice cursor overflowed (base="@ + decimal(base as nat) + ", slice="@ + decimal(
        SLICE_BYTES as nat,
    ) + "); increase --max-pages at link time or reduce slice count"@
}

/// The text of an access that ends beyond the address range.
pub open spec fn access_overflow(offset: u32, len: u32) -> Seq<char> {
    "pcache region access overflow: offset="@ + decimal(offset as nat) + ", len="@ + decimal(
        len as nat,
    )
}

/// The text of an access that ends beyond the slice.
pub open spec fn access_out_of_slice(offset: u32, len: u32) -> Seq<char> {
    "pcache region access out of slice: offset="@ + decimal(offset as nat) + ", len="@ + decimal(
        len as nat,
    ) + ", capacity="@ + decimal(SLICE_BYTES as nat)
}

/// The access stays within a slice.
pub open spec fn in_bounds(offset: u32, len: u32) -> bool {
    offset + len <= SLICE_BYTES
}

/// The error of an access that does not.
pub open spec fn bounds_text(offset: u32, len: u32) -> Seq<char> {
    if offset + len > u32::MAX {
        access_overflow(offset, len)
    } else {
        access_out_of_slice(offset, len)
    }
}

impl MultiMemoryRegion {
    /// Where the region's slice starts.
    pub closed spec fn base(&self) -> u32 {
        self.base
    }

    /// The slice lies within the pool's address range.
    pub closed spec fn wf(&self) -> bool {
        self.base + SLICE_BYTES <= u32::MAX
    }

    /// A region in the next slice of the pool; an error if none is left.
    pub fn new(cursor: &mut SliceCursor) -> (r: Result<Self, RegionError>)
        requires
            old(cursor).wf(),
            old(cursor).slice() == SLICE_BYTES,
        ensures
            final(cursor).wf(),
            final(cursor).slice() == SLICE_BYTES,
            match r {
                Ok(region) => {
                    &&& region.wf()
                    &&& region.base() == old(cursor).next()
                    &&& region@ == Set::<u32>::empty()
                    &&& old(cursor).next() + SLICE_BYTES <= u32::MAX
                    &&& final(cursor).next() == old(cursor).next() + SLICE_BYTES
                    &&& final(cursor).handed() == old(cursor).handed().push(old(cursor).next())
                },
                Err(RegionError::Backing(s)) => {
                    &&& old(cursor).next() + SLICE_BYTES > u32::MAX
                    &&& s@ == cursor_overflow(old(cursor).next())
                    &&& final(cursor).next() == old(cursor).next()
                    &&& final(cursor).handed() == old(cursor).handed()
                },
            },
    {
        broadcast use vstd::std_specs::hash::group_hash_axioms;

        match cursor.reserve() {
            Ok(base) => {
                let r = MultiMemoryRegion { base, written: HashMap::new() };
                assert(r@ =~= Set::<u32>::empty());
                Ok(r)
            },
            Err(base) => {
                let mut s = String::from_str("pcache pool 1 slice cursor overflowed (base=");
                push_decimal(&mut s, base as u64);
                s.append(", slice=");
                push_decimal(&mut s, SLICE_BYTES as u64);
                s.append("); increase --max-pages at link time or reduce slice count");
                assert(s@ =~= cursor_overflow(base));
                Err(RegionError::Backing(s))
            },
        }
    }

    /// An access of `len` bytes at `offset` has to end within the slice.
    pub fn check_in_bounds(&self, offset: u32, len: u32) -> (r: Result<(), RegionError>)
        ensures
            match r {
                Ok(()) => in_bounds(offset, len),
                Err(RegionError::Backing(s)) => !in_bounds(offset, len) && s@ == bounds_text(
                    offset,
                    len,
                ),
            },
    {
        let end: u32 = match offset.checked_add(len) {
            Some(end) => end,
            None => {
                let mut s = String::from_str("pcache region access overflow: offset=");
                push_decimal(&mut s, offset as u64);
                s.append(", len=");
                push_decimal(&mut s, len as u64);
                assert(s@ =~= access_overflow(offset, len));
                return Err(RegionError::Backing(s));
            },
        };
        if end > SLICE_BYTES {
            let mut s = String::from_str("pcache region access out of slice: offset=");
            push_decimal(&mut s, offset as u64);
            s.append(", len=");
            push_decimal(&mut s, len as u64);
            s.append(", capacity=");
            push_decimal(&mut s, SLICE_BYTES as u64);
            assert(s@ =~= access_out_of_slice(offset, len));
            return Err(RegionError::Backing(s));
        }
        Ok(())
    }

    /// The pool bytes to read for `len` bytes at `offset`; `Ok(None)` where
    /// nothing was written.
    pub fn read(&self, offset: u32, len: u32) -> (r: Result<Option<PoolSpan>, RegionError>)
        requires
            self.wf(),
        ensures
            match r {
                Ok(None) => !self@.contains(offset),
                Ok(Some(span)) => {
                    &&& self@.contains(offset)
                    &&& in_bounds(offset, len)
                    &&& span.addr == self.base() + offset
                    &&& span.len == len
                },
                Err(RegionError::Backing(s)) => {
                    &&& self@.contains(offset)
                    &&& !in_bounds(offset, len)
                    &&& s@ == bounds_text(offset, len)
                },
            },
    {
        broadcast use vstd::std_specs::hash::group_hash_axioms;

        if !self.written.contains_key(&offset) {
            return Ok(None);
        }
        match self.check_in_bounds(offset, len) {
            Ok(()) => Ok(Some(PoolSpan { addr: self.base + offset, len })),
            Err(e) => Err(e),
        }
    }

    /// The pool bytes to overwrite with `len` bytes of data at `offset`, which
    /// counts as written from now on. Every call counts as a write.
    pub fn write(&mut self, writes: &mut Counter, offset: u32, len: u32) -> (r: Result<
        PoolSpan,
        RegionError,
    >)
        requires
            old(self).wf(),
        ensures
            final(self).wf(),
            final(self).base() == old(self).base(),
            final(writes)@ == bumped(old(writes)@),
            match r {
                Ok(span) => {
                    &&& in_bounds(offset, len)
                    &&& span.addr == old(self).base() + offset
                    &&& span.len == len
                    &&& final(self)@ == old(self)@.insert(offset)
                },
                Err(RegionError::Backing(s)) => {
                    &&& !in_bounds(offset, len)
                    &&& s@ == bounds_text(offset, len)
                    &&& final(self)@ == old(self)@
                },
            },
    {
        broadcast use vstd::std_specs::hash::group_hash_axioms;

        writes.bump();
        match self.check_in_bounds(offset, len) {
            Ok(()) => {
                self.written.insert(offset, ());
                assert(self@ =~= old(self)@.insert(offset));
                Ok(PoolSpan { addr: self.base + offset, len })
            },
            Err(e) => Err(e),
        }
    }

    /// The pool bytes to read and those to overwrite with them; `Ok(None)`
    /// where nothing was written at `src_offset`.
    pub fn copy(&mut self, src_offset: u32, dst_offset: u32, len: u32) -> (r: Result<
        Option<(PoolSpan, PoolSpan)>,
        RegionError,
    >)
        requires
            old(self).wf(),
        ensures
            final(self).wf(),
            final(self).base() == old(self).base(),
            match r {
                Ok(None) => !old(self)@.contains(src_offset) && final(self)@ == old(self)@,
                Ok(Some((src, dst))) => {
                    &&& old(self)@.contains(src_offset)
                    &&& in_bounds(src_offset, len)
                    &&& in_bounds(dst_offset, len)
                    &&& src.addr == old(self).base() + src_offset
                    &&& src.len == len
                    &&& dst.addr == old(self).base() + dst_offset
                    &&& dst.len == len
                    &&& final(self)@ == old(self)@.insert(dst_offset)
                },
                Err(RegionError::Backing(s)) => {
                    &&& old(self)@.contains(src_offset)
                    &&& !in_bounds(src_offset, len) || !in_bounds(dst_offset, len)
                    &&& s@ == if in_bounds(src_offset, len) {
                        bounds_text(dst_offset, len)
                    } else {
                        bounds_text(src_offset, len)
                    }
                    &&& final(self)@ == old(self)@
                },
            },
    {
        broadcast use vstd::std_specs::hash::group_hash_axioms;

        if !self.written.contains_key(&src_offset) {
            return Ok(None);
        }
        match self.check_in_bounds(src_offset, len) {
            Ok(()) => {},
            Err(e) => {
                return Err(e);
            },
        }
        match self.check_in_bounds(dst_offset, len) {
            Ok(()) => {},
            Err(e) => {
                return Err(e);
            },
        }
        self.written.insert(dst_offset, ());
        assert(self@ =~= old(self)@.insert(dst_offset));
        Ok(
            Some(
                (
                    PoolSpan { addr: self.base + src_offset, len },
                    PoolSpan { addr: self.base + dst_offset, len },
                ),
            ),
        )
    }

    /// Forgets every offset at or above `limit`.
    pub fn truncate_above(&mut self, limit: u32)
        ensures
            final(self).wf() == old(self).wf(),
            final(self).base() == old(self).base(),
            final(self)@ == old(self)@.filter(|o: u32| o < limit),
    {
        broadcast use vstd::std_specs::hash::group_hash_axioms;

        let gone: Vec<u32> = keys_from(&self.written, limit);
        let mut i: usize = 0;
        while i < gone.len()
            invariant
                self.base == old(self).base,
                i <= gone.len(),
                forall|k: u32| #[trigger]
                    self.written@.contains_key(k) <==> old(self).written@.contains_key(k)
                        && !gone@.take(i as int).contains(k),
            decreases gone.len() - i,
        {
            self.written.remove(&gone[i]);
            proof {
                lemma_keys_gone(gone@, i as int);
            }
            i = i + 1;
        }
        assert(gone@.take(i as int) =~= gone@);
        assert(self@ =~= old(self)@.filter(|o: u32| o < limit));
    }
}

/// The bytes of a span, in a pool.
pub open spec fn pool_bytes(pool: Seq<u8>, addr: u32, len: u32) -> Seq<u8> {
    pool.subrange(addr as int, addr + len)
}

/// A page reads back what was written to its span.
pub proof fn lemma_pool_read_after_write(pool: Seq<u8>, addr: u32, data: Seq<u8>)
    requires
        addr + data.len() <= pool.len(),
        data.len() <= u32::MAX,
    ensures
        pool_bytes(splice(pool, addr as int, data), addr, data.len() as u32) == data,
{
    assert(pool_bytes(splice(pool, addr as int, data), addr, data.len() as u32) =~= data);
}

/// A write to one region changes no byte of another: accesses stay within
/// their slices, and the slices do not overlap.
pub proof fn lemma_regions_apart(
    pool: Seq<u8>,
    base1: u32,
    offset1: u32,
    data: Seq<u8>,
    base2: u32,
    offset2: u32,
    len2: u32,
)
    requires
        data.len() <= u32::MAX,
        in_bounds(offset1, data.len() as u32),
        in_bounds(offset2, len2),
        base1 + SLICE_BYTES <= base2 || base2 + SLICE_BYTES <= base1,
        base1 + SLICE_BYTES <= pool.len() <= u32::MAX + 1,
        base2 + SLICE_BYTES <= pool.len(),
    ensures
        pool_bytes(
            splice(pool, (base1 + offset1) as int, data),
            (base2 + offset2) as u32,
            len2,
        ) == pool_bytes(pool, (base2 + offset2) as u32, len2),
{
    assert(pool_bytes(
        splice(pool, (base1 + offset1) as int, data),
        (base2 + offset2) as u32,
        len2,
    ) =~= pool_bytes(pool, (base2 + offset2) as u32, len2));
}

/// An access is admitted exactly if its last byte lies in the slice, whatever its
/// size.
pub proof fn lemma_what_fits_a_slice(offset: u32, len: u32)
    ensures
        in_bounds(offset, len) <==> offset + len <= 0x1000_0000,
{
}

} // verus!
