//! Cold storage in a memory manager that hands out opaque handles.
//!
//! The region keeps a handle for every offset it wrote. It says which request
//! the manager is owed and turns the manager's answers into results; the
//! requests themselves are made by whoever holds the connection to it.

use crate::counters::{bumped, Counter};
use crate::pcache::region::RegionError;
use crate::tables::{keys_from, lemma_keys_gone};
use crate::text::{decimal, push_decimal};
use std::collections::HashMap;
use vstd::prelude::*;
use vstd::string::*;

verus! {

/// The capacity a region is created with where the caller names none.
pub const DEFAULT_REGION_BYTES: u32 = 268435456;

/// How many writes every region so far was asked for.
pub fn lifetime_write_count(writes: &Counter) -> (r: u32)
    ensures
        r == writes@,
{
    writes.get()
}

/// The text of a request that the manager refused with the error `e`.
pub open spec fn tvm_text(e: Seq<char>) -> Seq<char> {
    "tvm-error: "@ + e
}

/// The manager's error, as a region's.
pub fn tvm_err(e: &str) -> (r: RegionError)
    ensures
        r->Backing_0@ == tvm_text(e@),
{
    let mut s = String::from_str("tvm-error: ");
    s.append(e);
    RegionError::Backing(s)
}

/// The text of an answer of another length than was asked for.
pub open spec fn short_text(offset: u32, len: u32, got: nat) -> Seq<char> {
    "tvm region read: expected "@ + decimal(len as nat) + " bytes at offset "@ + decimal(
        offset as nat,
    ) + ", got "@ + decimal(got)
}

/// The answer to a request that carries nothing on success.
pub open spec fn settled(reply: Result<(), String>, r: Result<(), RegionError>) -> bool {
    match reply {
        Ok(()) => r is Ok,
        Err(e) => r is Err && r->Err_0->Backing_0@ == tvm_text(e@),
    }
}

/// What a write needs first.
#[derive(Debug)]
pub enum WriteRequest<H> {
    /// A handle for that many bytes, to be reported with `allocated`.
    Allocate(u32),
    /// Nothing: the bytes go to this handle.
    Store(H),
}

/// What a copy needs first.
#[derive(Debug)]
pub enum CopyRequest<H> {
    /// Nothing is there to copy.
    Nothing,
    /// A handle for the destination, to be reported with `allocated`; the bytes
    /// come from this handle.
    Allocate(H),
    /// Nothing: the bytes go from the first handle to the second.
    Copy(H, H),
}

/// A region whose page bytes the memory manager holds, by handle.
pub struct WitTvmRegion<H> {
    region_id: u16,
    handles: HashMap<u32, H>,
}

impl<H> View for WitTvmRegion<H> {
    type V = Map<u32, H>;

    closed spec fn view(&self) -> Map<u32, H> {
        self.handles@
    }
}

impl<H: Copy> WitTvmRegion<H> {
    /// The manager's number for the region.
    pub closed spec fn id(&self) -> u16 {
        self.region_id
    }

    /// A region under the number that the manager created it with; an error if
    /// the manager refused to.
    pub fn new(created: Result<u16, String>) -> (r: Result<Self, RegionError>)
        ensures
            match created {
                Ok(id) => r is Ok && r->Ok_0.id() == id && r->Ok_0@ == Map::<u32, H>::empty(),
                Err(e) => r is Err && r->Err_0->Backing_0@ == tvm_text(e@),
            },
    {
        broadcast use vstd::std_specs::hash::group_hash_axioms;

        match created {
            Ok(region_id) => Ok(WitTvmRegion { region_id, handles: HashMap::new() }),
            Err(e) => Err(tvm_err(e.as_str())),
        }
    }

    /// The manager's number for the region.
    pub fn region_id(&self) -> (r: u16)
        ensures
            r == self.id(),
    {
        self.region_id
    }

    /// The handle to read for `offset`; `None` where nothing was written.
    pub fn read(&self, offset: u32) -> (r: Option<H>)
        ensures
            match r {
                Some(h) => self@.contains_key(offset) && h == self@[offset],
                None => !self@.contains_key(offset),
            },
    {
        broadcast use vstd::std_specs::hash::group_hash_axioms;

        match self.handles.get(&offset) {
            Some(h) => Some(*h),
            None => None,
        }
    }

    /// The result of reading `len` bytes at `offset`, by the manager's answer:
    /// only an answer of that length will do.
    pub fn read_reply(offset: u32, len: u32, reply: Result<Vec<u8>, String>) -> (r: Result<
        Option<Vec<u8>>,
        RegionError,
    >)
        ensures
            match reply {
                Ok(v) => if v@.len() == len {
                    r == Ok::<Option<Vec<u8>>, RegionError>(Some(v))
                } else {
                    r is Err && r->Err_0->Backing_0@ == short_text(offset, len, v@.len())
                },
                Err(e) => r is Err && r->Err_0->Backing_0@ == tvm_text(e@),
            },
    {
        match reply {
            Ok(v) => {
                if v.len() as u64 != len as u64 {
                    let mut s = String::from_str("tvm region read: expected ");
                    push_decimal(&mut s, len as u64);
                    s.append(" bytes at offset ");
                    push_decimal(&mut s, offset as u64);
                    s.append(", got ");
                    push_decimal(&mut s, v.len() as u64);
                    assert(s@ =~= short_text(offset, len, v@.len()));
                    return Err(RegionError::Backing(s));
                }
                Ok(Some(v))
            },
            Err(e) => Err(tvm_err(e.as_str())),
        }
    }

    /// What writing `len` bytes at `offset` needs first. Every call counts as a
    /// write.
    pub fn write(&self, writes: &mut Counter, offset: u32, len: u32) -> (r: WriteRequest<H>)
        ensures
            final(writes)@ == bumped(old(writes)@),
            r == if self@.contains_key(offset) {
                WriteRequest::Store(self@[offset])
            } else {
                WriteRequest::Allocate(len)
            },
    {
        broadcast use vstd::std_specs::hash::group_hash_axioms;

        writes.bump();
        match self.handles.get(&offset) {
            Some(h) => WriteRequest::Store(*h),
            None => WriteRequest::Allocate(len),
        }
    }

    /// What copying from `src_offset` to `dst_offset` needs first.
    pub fn copy(&self, src_offset: u32, dst_offset: u32) -> (r: CopyRequest<H>)
        ensures
            r == if !self@.contains_key(src_offset) {
                CopyRequest::Nothing
            } else if self@.contains_key(dst_offset) {
                CopyRequest::Copy(self@[src_offset], self@[dst_offset])
            } else {
                CopyRequest::Allocate(self@[src_offset])
            },
    {
        broadcast use vstd::std_specs::hash::group_hash_axioms;

        match self.handles.get(&src_offset) {
            Some(src) => match self.handles.get(&dst_offset) {
                Some(dst) => CopyRequest::Copy(*src, *dst),
                None => CopyRequest::Allocate(*src),
            },
            None => CopyRequest::Nothing,
        }
    }

    /// Takes the manager's answer to a request for a handle for `offset`.
    pub fn allocated(&mut self, offset: u32, reply: Result<H, String>) -> (r: Result<H, RegionError>)
        ensures
            final(self).id() == old(self).id(),
            match reply {
                Ok(h) => r == Ok::<H, RegionError>(h) && final(self)@ == old(self)@.insert(
                    offset,
                    h,
                ),
                Err(e) => r is Err && r->Err_0->Backing_0@ == tvm_text(e@) && final(self)@ == old(
                    self,
                )@,
            },
    {
        broadcast use vstd::std_specs::hash::group_hash_axioms;

        match reply {
            Ok(h) => {
                self.handles.insert(offset, h);
                Ok(h)
            },
            Err(e) => Err(tvm_err(e.as_str())),
        }
    }

    /// The result of a write or a copy, by the manager's answer.
    pub fn settle(reply: Result<(), String>) -> (r: Result<(), RegionError>)
        ensures
            settled(reply, r),
    {
        match reply {
            Ok(()) => Ok(()),
            Err(e) => Err(tvm_err(e.as_str())),
        }
    }

    /// Forgets every offset at or above `limit`. The handles that were kept for
    /// them, one for each, are to be given back to the manager.
    pub fn truncate_above(&mut self, limit: u32) -> (r: Vec<H>)
        ensures
            final(self).id() == old(self).id(),
            final(self)@ == old(self)@.restrict(old(self)@.dom().filter(|o: u32| o < limit)),
            exists|offsets: Seq<u32>| #[trigger]
                released(old(self)@, offsets, r@) && forall|o: u32| #[trigger]
                    offsets.contains(o) <==> old(self)@.contains_key(o) && o >= limit,
    {
        broadcast use vstd::std_specs::hash::group_hash_axioms;

        let gone: Vec<u32> = keys_from(&self.handles, limit);
        let mut r: Vec<H> = Vec::new();
        let mut i: usize = 0;
        proof {
            assert forall|j: int| 0 <= j < gone@.len() implies self@.contains_key(
                #[trigger] gone@[j],
            ) by {
                assert(gone@.contains(gone@[j]));
            }
        }
        while i < gone.len()
            invariant
                self.region_id == old(self).region_id,
                i <= gone.len(),
                gone@.no_duplicates(),
                forall|j: int|
                    0 <= j < gone@.len() ==> old(self)@.contains_key(#[trigger] gone@[j]),
                forall|k: u32| #[trigger]
                    self@.contains_key(k) <==> old(self)@.contains_key(k) && !gone@.take(
                        i as int,
                    ).contains(k),
                forall|k: u32| #[trigger] self@.contains_key(k) ==> self@[k] == old(self)@[k],
                r@.len() == i,
                forall|j: int| 0 <= j < i ==> #[trigger] r@[j] == old(self)@[gone@[j]],
            decreases gone.len() - i,
        {
            let key: u32 = gone[i];
            proof {
                assert forall|j: int| 0 <= j < i implies gone@.take(i as int)[j] != key by {}
                assert(old(self)@.contains_key(gone@[i as int]));
                assert(self@.contains_key(key));
                lemma_keys_gone(gone@, i as int);
            }
            match self.handles.remove(&key) {
                Some(h) => {
                    r.push(h);
                },
                None => {},
            }
            i = i + 1;
        }
        proof {
            assert(gone@.take(i as int) =~= gone@);
            assert(self@ =~= old(self)@.restrict(old(self)@.dom().filter(|o: u32| o < limit)));
            assert(released(old(self)@, gone@, r@));
        }
        r
    }
}

/// The handles `r` are those of `offsets`, in that order, each offset once.
pub open spec fn released<H>(m: Map<u32, H>, offsets: Seq<u32>, r: Seq<H>) -> bool {
    &&& offsets.no_duplicates()
    &&& r.len() == offsets.len()
    &&& forall|j: int| 0 <= j < r.len() ==> #[trigger] r[j] == m[offsets[j]]
}

/// The manager's answer is passed on: success as success, and an error with its text
/// behind `tvm-error: `.
pub proof fn lemma_answers_are_passed_on(reply: Result<(), String>, r: Result<(), RegionError>)
    requires
        settled(reply, r),
    ensures
        reply is Ok <==> r is Ok,
        reply is Err ==> r->Err_0->Backing_0@ == "tvm-error: "@ + reply->Err_0@,
{
}

/// The handles that are given back are those of the offsets, each once.
pub proof fn lemma_handles_are_given_back<H>(
    m: Map<u32, H>,
    offsets: Seq<u32>,
    r: Seq<H>,
    i: int,
    j: int,
)
    requires
        released(m, offsets, r),
        0 <= i < r.len(),
        0 <= j < r.len(),
    ensures
        r.len() == offsets.len(),
        r[i] == m[offsets[i]],
        i != j ==> offsets[i] != offsets[j],
{
}

} // verus!
