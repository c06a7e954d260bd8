//! Cold storage: what holds the page bytes beyond the resident pool.
//!
//! A page is addressed by its byte offset, `key * page size`. A region is
//! described by four ghost functions: which offsets were written, what bytes
//! lie there, which reads cannot fail and which writes cannot fail.

use crate::tables::keys_from;
use crate::text::{decimal, push_decimal};
use std::collections::HashMap;
use vstd::prelude::*;
use vstd::string::*;

verus! {

/// The ways a region can fail.
#[derive(Debug)]
pub enum RegionError {
    /// The backing store refused a request; the text names the failure.
    Backing(String),
}

impl RegionError {
    /// The text shown for this error.
    pub fn message(&self) -> (r: String)
        ensures
            r@ == "region backing error: "@ + self->Backing_0@,
    {
        match self {
            RegionError::Backing(s) => {
                let mut r = String::from_str("region backing error: ");
                r.append(s.as_str());
                r
            },
        }
    }
}

/// What a region holds and promises, as ghost functions.
pub trait RegionModel: Sized {
    /// The implementation's own invariant.
    spec fn inv(&self) -> bool;

    /// Something was written at `offset` and not dropped since.
    spec fn written(&self, offset: u32) -> bool;

    /// The `len` bytes at `offset`.
    spec fn bytes(&self, offset: u32, len: nat) -> Seq<u8>;

    /// Reading `len` bytes at the written offset `offset` cannot fail.
    spec fn serves(&self, offset: u32, len: nat) -> bool;

    /// Writing `len` bytes at `offset` cannot fail.
    spec fn accepts(&self, offset: u32, len: nat) -> bool;
}

/// The byte ranges `[o1, o1 + l1)` and `[o2, o2 + l2)` have no byte in common.
pub open spec fn disjoint(o1: u32, l1: nat, o2: u32, l2: nat) -> bool {
    o1 + l1 <= o2 || o2 + l2 <= o1
}

/// `post` differs from `pre` at most in the `len` bytes at `offset`.
pub open spec fn changes_only<R: RegionModel>(pre: R, post: R, offset: u32, len: nat) -> bool {
    &&& forall|o: u32| o != offset ==> #[trigger] post.written(o) == pre.written(o)
    &&& forall|o: u32, l: nat|
        o != offset && disjoint(o, l, offset, len) ==> #[trigger] post.bytes(o, l) == pre.bytes(
            o,
            l,
        )
    &&& forall|o: u32, l: nat|
        o != offset && disjoint(o, l, offset, len) ==> #[trigger] post.serves(o, l) == pre.serves(
            o,
            l,
        )
    &&& forall|o: u32, l: nat| #[trigger] post.accepts(o, l) == pre.accepts(o, l)
}

/// `data` lies at `offset`.
pub open spec fn stores<R: RegionModel>(r: R, offset: u32, data: Seq<u8>) -> bool {
    &&& r.written(offset)
    &&& r.bytes(offset, data.len()) == data
}

/// What a write of `data` at `offset` may do, whether or not it succeeds.
pub open spec fn write_effect<R: RegionModel>(pre: R, post: R, offset: u32, data: Seq<u8>) -> bool {
    &&& post.inv()
    &&& changes_only(pre, post, offset, data.len())
    &&& pre.accepts(offset, data.len()) ==> stores(post, offset, data) && post.serves(
        offset,
        data.len(),
    )
}

/// What a copy of `len` bytes from `src` to `dst` may do, whether or not it
/// succeeds.
pub open spec fn copy_effect<R: RegionModel>(pre: R, post: R, src: u32, dst: u32, len: nat) -> bool {
    &&& post.inv()
    &&& changes_only(pre, post, dst, len)
    &&& !pre.written(src) ==> post == pre
    &&& pre.written(src) && pre.serves(src, len) && pre.accepts(dst, len) ==> stores(
        post,
        dst,
        pre.bytes(src, len),
    ) && post.serves(dst, len)
}

/// What dropping every offset at or above `limit` does.
pub open spec fn truncate_effect<R: RegionModel>(pre: R, post: R, limit: u32) -> bool {
    &&& post.inv()
    &&& forall|o: u32| #[trigger] post.written(o) == (pre.written(o) && o < limit)
    &&& forall|o: u32, l: nat|
        o < limit && pre.written(o) ==> #[trigger] post.bytes(o, l) == pre.bytes(o, l)
    &&& forall|o: u32, l: nat|
        o < limit && pre.written(o) ==> #[trigger] post.serves(o, l) == pre.serves(o, l)
    &&& forall|o: u32, l: nat| #[trigger] post.accepts(o, l) == pre.accepts(o, l)
}

/// The cold-storage interface of the page cache.
pub trait Region: RegionModel + Send {
    /// Reads `len` bytes at `offset`: `Ok(None)` where nothing was written,
    /// otherwise exactly `len` bytes.
    fn read(&self, offset: u32, len: u32) -> (r: Result<Option<Vec<u8>>, RegionError>)
        requires
            self.inv(),
        ensures
            match r {
                Ok(None) => !self.written(offset),
                Ok(Some(b)) => self.written(offset) && b@.len() == len && b@ == self.bytes(
                    offset,
                    len as nat,
                ),
                Err(_) => self.written(offset) && !self.serves(offset, len as nat),
            },
    ;

    /// Writes `data` at `offset`.
    fn write(&mut self, offset: u32, data: &[u8]) -> (r: Result<(), RegionError>)
        requires
            old(self).inv(),
            data@.len() <= u32::MAX,
        ensures
            write_effect(*old(self), *final(self), offset, data@),
            old(self).accepts(offset, data@.len()) ==> r is Ok,
            r is Ok ==> stores(*final(self), offset, data@),
    ;

    /// Copies `len` bytes from `src_offset` to `dst_offset`; nothing happens
    /// where nothing was written at `src_offset`.
    fn copy(&mut self, src_offset: u32, dst_offset: u32, len: u32) -> (r: Result<(), RegionError>)
        requires
            old(self).inv(),
        ensures
            copy_effect(*old(self), *final(self), src_offset, dst_offset, len as nat),
            !old(self).written(src_offset) ==> r is Ok,
            old(self).serves(src_offset, len as nat) && old(self).accepts(dst_offset, len as nat)
                ==> r is Ok,
            r is Ok && old(self).written(src_offset) ==> stores(
                *final(self),
                dst_offset,
                old(self).bytes(src_offset, len as nat),
            ),
    ;

    /// Drops every offset at or above `limit`.
    fn truncate_above(&mut self, limit: u32) -> (r: Result<(), RegionError>)
        requires
            old(self).inv(),
        ensures
            truncate_effect(*old(self), *final(self), limit),
    ;
}

/// The in-process region: one buffer per offset.
pub struct InProcRegion {
    pages: HashMap<u32, Vec<u8>>,
}

impl View for InProcRegion {
    type V = Map<u32, Seq<u8>>;

    closed spec fn view(&self) -> Map<u32, Seq<u8>> {
        self.pages@.map_values(|v: Vec<u8>| v@)
    }
}

/// The text of a read that asks for another length than was written.
pub open spec fn read_mismatch(offset: u32, held: nat, len: u32) -> Seq<char> {
    "in-proc region: offset "@ + decimal(offset as nat) + " has "@ + decimal(held)
        + " bytes, requested "@ + decimal(len as nat)
}

/// The text of a copy that asks for another length than was written.
pub open spec fn copy_mismatch(src_offset: u32, held: nat, len: u32) -> Seq<char> {
    "in-proc region: copy len mismatch at src "@ + decimal(src_offset as nat) + ": "@ + decimal(
        held,
    ) + " != "@ + decimal(len as nat)
}

impl InProcRegion {
    /// An empty region.
    pub fn new() -> (r: Self)
        ensures
            r.inv(),
            r@ == Map::<u32, Seq<u8>>::empty(),
    {
        broadcast use vstd::std_specs::hash::group_hash_axioms;

        let r = InProcRegion { pages: HashMap::new() };
        assert(r@ =~= Map::<u32, Seq<u8>>::empty());
        r
    }

    /// How many pages the region holds.
    pub fn page_count(&self) -> (r: usize)
        ensures
            r == self@.len(),
    {
        broadcast use vstd::std_specs::hash::group_hash_axioms;

        assert(self@.dom() =~= self.pages@.dom());
        self.pages.len()
    }
}

impl Default for InProcRegion {
    fn default() -> (r: Self)
        ensures
            r.inv(),
            r@ == Map::<u32, Seq<u8>>::empty(),
    {
        InProcRegion::new()
    }
}

impl RegionModel for InProcRegion {
    open spec fn inv(&self) -> bool {
        true
    }

    open spec fn written(&self, offset: u32) -> bool {
        self@.contains_key(offset)
    }

    open spec fn bytes(&self, offset: u32, len: nat) -> Seq<u8> {
        self@[offset]
    }

    open spec fn serves(&self, offset: u32, len: nat) -> bool {
        self@[offset].len() == len
    }

    open spec fn accepts(&self, offset: u32, len: nat) -> bool {
        true
    }
}

impl Region for InProcRegion {
    fn read(&self, offset: u32, len: u32) -> (r: Result<Option<Vec<u8>>, RegionError>)
        ensures
            match r {
                Ok(None) => !self@.contains_key(offset),
                Ok(Some(b)) => self@.contains_key(offset) && b@ == self@[offset] && b@.len()
                    == len,
                Err(RegionError::Backing(s)) => self@.contains_key(offset) && self@[offset].len()
                    != len && s@ == read_mismatch(offset, self@[offset].len(), len),
            },
    {
        broadcast use vstd::std_specs::hash::group_hash_axioms;

        match self.pages.get(&offset) {
            Some(v) => {
                if v.len() as u64 != len as u64 {
                    let mut s = String::from_str("in-proc region: offset ");
                    push_decimal(&mut s, offset as u64);
                    s.append(" has ");
                    push_decimal(&mut s, v.len() as u64);
                    s.append(" bytes, requested ");
                    push_decimal(&mut s, len as u64);
                    assert(s@ =~= read_mismatch(offset, self@[offset].len(), len));
                    return Err(RegionError::Backing(s));
                }
                Ok(Some(vstd::slice::slice_to_vec(v.as_slice())))
            },
            None => Ok(None),
        }
    }

    fn write(&mut self, offset: u32, data: &[u8]) -> (r: Result<(), RegionError>)
        ensures
            r is Ok,
            final(self)@ == old(self)@.insert(offset, data@),
    {
        broadcast use vstd::std_specs::hash::group_hash_axioms;

        self.pages.insert(offset, vstd::slice::slice_to_vec(data));
        assert(self@ =~= old(self)@.insert(offset, data@));
        Ok(())
    }

    fn copy(&mut self, src_offset: u32, dst_offset: u32, len: u32) -> (r: Result<(), RegionError>)
        ensures
            match r {
                Ok(()) => if old(self)@.contains_key(src_offset) {
                    &&& old(self)@[src_offset].len() == len
                    &&& final(self)@ == old(self)@.insert(dst_offset, old(self)@[src_offset])
                } else {
                    *final(self) == *old(self)
                },
                Err(RegionError::Backing(s)) => {
                    &&& old(self)@.contains_key(src_offset)
                    &&& old(self)@[src_offset].len() != len
                    &&& s@ == copy_mismatch(src_offset, old(self)@[src_offset].len(), len)
                    &&& *final(self) == *old(self)
                },
            },
    {
        broadcast use vstd::std_specs::hash::group_hash_axioms;

        let src = match self.pages.get(&src_offset) {
            Some(v) => vstd::slice::slice_to_vec(v.as_slice()),
            None => {
                return Ok(());
            },
        };
        if src.len() as u64 != len as u64 {
            let mut s = String::from_str("in-proc region: copy len mismatch at src ");
            push_decimal(&mut s, src_offset as u64);
            s.append(": ");
            push_decimal(&mut s, src.len() as u64);
            s.append(" != ");
            push_decimal(&mut s, len as u64);
            assert(s@ =~= copy_mismatch(src_offset, self@[src_offset].len(), len));
            return Err(RegionError::Backing(s));
        }
        self.pages.insert(dst_offset, src);
        assert(self@ =~= old(self)@.insert(dst_offset, old(self)@[src_offset]));
        Ok(())
    }

    fn truncate_above(&mut self, limit: u32) -> (r: Result<(), RegionError>)
        ensures
            r is Ok,
            final(self)@ == old(self)@.restrict(old(self)@.dom().filter(|k: u32| k < limit)),
    {
        broadcast use vstd::std_specs::hash::group_hash_axioms;

        let dead = keys_from(&self.pages, limit);
        let mut i: usize = 0;
        while i < dead.len()
            invariant
                i <= dead.len(),
                forall|k: u32| #[trigger]
                    dead@.contains(k) <==> old(self).pages@.contains_key(k) && k >= limit,
                forall|k: u32| #[trigger]
                    self.pages@.contains_key(k) <==> old(self).pages@.contains_key(k)
                        && !dead@.take(i as int).contains(k),
                forall|k: u32|
                    self.pages@.contains_key(k) ==> #[trigger] self.pages@[k] == old(
                        self,
                    ).pages@[k],
            decreases dead.len() - i,
        {
            self.pages.remove(&dead[i]);
            assert(dead@.take(i + 1) =~= dead@.take(i as int).push(dead@[i as int]));
            assert forall|k: u32| #[trigger] dead@.take(i + 1).contains(k) <==> dead@.take(
                i as int,
            ).contains(k) || k == dead@[i as int] by {
                if dead@.take(i as int).contains(k) {
                    let j = choose|j: int| 0 <= j < i && dead@.take(i as int)[j] == k;
                    assert(dead@.take(i + 1)[j] == k);
                }
                assert(dead@.take(i + 1)[i as int] == dead@[i as int]);
            }
            i += 1;
        }
        assert(dead@.take(i as int) =~= dead@);
        assert(self@ =~= old(self)@.restrict(old(self)@.dom().filter(|k: u32| k < limit)));
        Ok(())
    }
}

} // verus!
