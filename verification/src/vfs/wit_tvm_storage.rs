//! File storage in a memory manager that hands out opaque handles.
//!
//! A file keeps a handle for every chunk that was written. It says which request
//! the manager is owed and turns the manager's answers into results; the
//! requests themselves are made by whoever holds the connection to it.

use crate::codes::{SQLITE_IOERR_READ, SQLITE_IOERR_SHORT_READ, SQLITE_IOERR_WRITE};
use crate::bytes::splice;
use crate::pcache::wit_tvm_region::released;
use crate::tables::{keys_from, lemma_keys_gone};
use crate::vfs::chunks::{
    chunks_for, lemma_skip, live_chunks, padded, skipped, ReadJob, ReadStep, Span, WriteJob,
    WriteStep, CHUNK_SIZE,
};
use std::collections::HashMap;
use vstd::prelude::*;

verus! {

/// The capacity that a file's region is created with.
pub const DEFAULT_REGION_BYTES: u32 = 268435456;

/// A file whose chunks the memory manager holds, by handle.
pub struct WitTvmStorage<H> {
    region_id: u16,
    chunks: HashMap<u32, H>,
    size: u64,
}

impl<H> View for WitTvmStorage<H> {
    type V = Map<u32, H>;

    /// The handles, by chunk index.
    closed spec fn view(&self) -> Map<u32, H> {
        self.chunks@
    }
}

impl<H: Copy> WitTvmStorage<H> {
    /// The manager's number for the file's region.
    pub closed spec fn id(&self) -> u16 {
        self.region_id
    }

    /// The file's size.
    pub closed spec fn len(&self) -> nat {
        self.size as nat
    }

    /// The indices of the chunks that have a handle.
    pub open spec fn held(&self) -> Set<u64> {
        Set::new(|index: u64| index <= u32::MAX && self@.contains_key(index as u32))
    }

    /// An empty file in the region that the manager created, or the manager's
    /// error.
    pub fn new<E>(created: Result<u16, E>) -> (r: Result<Self, E>)
        ensures
            match created {
                Ok(id) => {
                    &&& r is Ok
                    &&& r->Ok_0.id() == id
                    &&& r->Ok_0@ == Map::<u32, H>::empty()
                    &&& r->Ok_0.len() == 0
                },
                Err(e) => r == Err::<Self, E>(e),
            },
    {
        broadcast use vstd::std_specs::hash::group_hash_axioms;

        match created {
            Ok(region_id) => Ok(WitTvmStorage { region_id, chunks: HashMap::new(), size: 0 }),
            Err(e) => Err(e),
        }
    }

    /// The manager's number for the file's region.
    pub fn region_id(&self) -> (r: u16)
        ensures
            r == self.id(),
    {
        self.region_id
    }

    fn handle(&self, index: u64) -> (r: Option<H>)
        ensures
            match r {
                Some(h) => self.held().contains(index) && h == self@[index as u32],
                None => !self.held().contains(index),
            },
    {
        broadcast use vstd::std_specs::hash::group_hash_axioms;

        if index > u32::MAX as u64 {
            return None;
        }
        match self.chunks.get(&(index as u32)) {
            Some(h) => Some(*h),
            None => None,
        }
    }

    /// Moves a read on to the next chunk that has a handle, and gives the
    /// handle. Chunks without one read as zeros. A finished read that extends
    /// past the end of the file is answered with the short-read code.
    pub fn read(&self, job: &mut ReadJob) -> (r: ReadStep<H>)
        requires
            old(job).wf(),
        ensures
            final(job).wf(),
            skipped(self.held(), *old(job), *final(job)),
            match r {
                ReadStep::Chunk(h) => {
                    &&& !final(job).done()
                    &&& self.held().contains(final(job).next().index)
                    &&& h == self@[final(job).next().index as u32]
                },
                ReadStep::Done(rc) => {
                    &&& final(job).done()
                    &&& rc == if old(job).offset() + old(job).len() > self.len() {
                        Err::<(), i32>(SQLITE_IOERR_SHORT_READ)
                    } else {
                        Ok(())
                    }
                },
            },
    {
        while !job.is_done()
            invariant
                job.wf(),
                skipped(self.held(), *old(job), *job),
            ensures
                job.done(),
            decreases job.len() - job.filled().len(),
        {
            let s: Span = job.span();
            match self.handle(s.index) {
                Some(h) => {
                    return ReadStep::Chunk(h);
                },
                None => {},
            }
            let ghost before = *job;
            job.skip();
            proof {
                lemma_skip(self.held(), *old(job), before, *job);
            }
        }
        if job.end() > self.size {
            return ReadStep::Done(Err(SQLITE_IOERR_SHORT_READ));
        }
        ReadStep::Done(Ok(()))
    }

    /// Hands the manager's answer for the next chunk to a read. A refusal and an
    /// answer that is too short are read errors.
    pub fn read_reply<E>(job: &mut ReadJob, reply: Result<Vec<u8>, E>) -> (r: Result<(), i32>)
        requires
            old(job).wf(),
            !old(job).done(),
        ensures
            final(job).wf(),
            final(job).same(old(job)),
            ({
                let s = old(job).next();
                if reply is Ok && reply->Ok_0@.len() >= s.start + s.len {
                    &&& r is Ok
                    &&& final(job).filled() == old(job).filled() + reply->Ok_0@.subrange(
                        s.start as int,
                        s.start + s.len,
                    )
                } else {
                    &&& r == Err::<(), i32>(SQLITE_IOERR_READ)
                    &&& final(job).filled() == old(job).filled()
                }
            }),
    {
        match reply {
            Ok(chunk) => {
                if job.supply(chunk.as_slice()) {
                    Ok(())
                } else {
                    Err(SQLITE_IOERR_READ)
                }
            },
            Err(_) => Err(SQLITE_IOERR_READ),
        }
    }

    /// What a write needs next: a handle for the next chunk, the chunk's bytes,
    /// or only that the chunk is stored.
    pub fn write(&self, job: &WriteJob) -> (r: WriteStep<H>)
        requires
            job.wf(),
        ensures
            match r {
                WriteStep::Done => job.done(),
                WriteStep::Refused(rc) => {
                    &&& !job.done()
                    &&& job.next().index > u32::MAX
                    &&& rc == SQLITE_IOERR_WRITE
                },
                WriteStep::Allocate => {
                    &&& !job.done()
                    &&& job.next().index <= u32::MAX
                    &&& !self.held().contains(job.next().index)
                },
                WriteStep::Merge(h) => {
                    &&& !job.done()
                    &&& self.held().contains(job.next().index)
                    &&& !job.whole_chunk()
                    &&& h == self@[job.next().index as u32]
                },
                WriteStep::Put(h) => {
                    &&& !job.done()
                    &&& self.held().contains(job.next().index)
                    &&& job.whole_chunk()
                    &&& h == self@[job.next().index as u32]
                },
            },
    {
        if job.is_done() {
            return WriteStep::Done;
        }
        let s: Span = job.span();
        match self.handle(s.index) {
            Some(h) => {
                if s.len == CHUNK_SIZE as usize {
                    WriteStep::Put(h)
                } else {
                    WriteStep::Merge(h)
                }
            },
            None => {
                if s.index > u32::MAX as u64 {
                    WriteStep::Refused(SQLITE_IOERR_WRITE)
                } else {
                    WriteStep::Allocate
                }
            },
        }
    }

    /// Takes the manager's answer to the request for a handle for the next
    /// chunk of a write.
    pub fn allocated<E>(&mut self, job: &WriteJob, reply: Result<H, E>) -> (r: Result<(), i32>)
        requires
            job.wf(),
            !job.done(),
            job.next().index <= u32::MAX,
        ensures
            final(self).id() == old(self).id(),
            final(self).len() == old(self).len(),
            match reply {
                Ok(h) => r is Ok && final(self)@ == old(self)@.insert(job.next().index as u32, h),
                Err(_) => r == Err::<(), i32>(SQLITE_IOERR_WRITE) && final(self)@ == old(self)@,
            },
    {
        broadcast use vstd::std_specs::hash::group_hash_axioms;

        let s: Span = job.span();
        match reply {
            Ok(h) => {
                self.chunks.insert(s.index as u32, h);
                Ok(())
            },
            Err(_) => Err(SQLITE_IOERR_WRITE),
        }
    }

    /// The next chunk of a write as it has to be stored, by the manager's answer
    /// for the chunk as it is. A refusal counts as zeros.
    pub fn merge<E>(job: &WriteJob, reply: Result<Vec<u8>, E>) -> (r: Vec<u8>)
        requires
            job.wf(),
            !job.done(),
        ensures
            ({
                let existing = match reply {
                    Ok(v) => v@,
                    Err(_) => Seq::<u8>::empty(),
                };
                r@ == splice(padded(existing), job.next().start as int, job.part())
            }),
    {
        match reply {
            Ok(chunk) => job.compose(chunk.as_slice()),
            Err(_) => {
                let none: Vec<u8> = Vec::new();
                job.compose(none.as_slice())
            },
        }
    }

    /// Takes the manager's answer to storing the next chunk of a write.
    pub fn chunk_stored<E>(job: &mut WriteJob, reply: Result<(), E>) -> (r: Result<(), i32>)
        requires
            old(job).wf(),
            !old(job).done(),
        ensures
            final(job).wf(),
            final(job).same(old(job)),
            match reply {
                Ok(()) => r is Ok && final(job).pos() == old(job).pos() + old(job).next().len,
                Err(_) => r == Err::<(), i32>(SQLITE_IOERR_WRITE) && final(job).pos() == old(
                    job,
                ).pos(),
            },
    {
        match reply {
            Ok(()) => {
                job.advance();
                Ok(())
            },
            Err(_) => Err(SQLITE_IOERR_WRITE),
        }
    }

    /// A write is finished: the file reaches at least to its end.
    pub fn finish_write(&mut self, job: &WriteJob)
        requires
            job.wf(),
            job.done(),
        ensures
            final(self).id() == old(self).id(),
            final(self)@ == old(self)@,
            final(self).len() == if job.offset() + job.data().len() > old(self).len() {
                (job.offset() + job.data().len()) as nat
            } else {
                old(self).len()
            },
    {
        let end: u64 = job.end();
        if end > self.size {
            self.size = end;
        }
    }

    /// The chunk that has to be zeroed from the new end on when the file's size
    /// becomes `size`, and how many of its bytes stay: the one that the file
    /// shrinks into.
    pub fn boundary(&self, size: u64) -> (r: Option<(H, usize)>)
        ensures
            ({
                let last = (size / 4096) as u64;
                match r {
                    Some((h, keep)) => {
                        &&& size < self.len()
                        &&& size % 4096 != 0
                        &&& self.held().contains(last)
                        &&& h == self@[last as u32]
                        &&& keep == size % 4096
                    },
                    None => size >= self.len() || size % 4096 == 0 || !self.held().contains(last),
                }
            }),
    {
        let last: u64 = size / CHUNK_SIZE as u64;
        let keep: u64 = size % CHUNK_SIZE as u64;
        if size < self.size && keep != 0 {
            match self.handle(last) {
                Some(h) => Some((h, keep as usize)),
                None => None,
            }
        } else {
            None
        }
    }

    /// Sets the file's size and forgets the chunks past the end. The handles
    /// that were kept for them, one for each, are to be given back to the
    /// manager.
    pub fn truncate(&mut self, size: u64) -> (r: Vec<H>)
        ensures
            final(self).id() == old(self).id(),
            final(self).len() == size,
            final(self)@ == old(self)@.restrict(
                old(self)@.dom().filter(|index: u32| index < chunks_for(size as nat)),
            ),
            exists|dead: Seq<u32>| #[trigger]
                released(old(self)@, dead, r@) && forall|index: u32| #[trigger]
                    dead.contains(index) <==> old(self)@.contains_key(index) && index
                        >= chunks_for(size as nat),
    {
        broadcast use vstd::std_specs::hash::group_hash_axioms;

        let first_dead: u64 = live_chunks(size);
        let mut r: Vec<H> = Vec::new();
        self.size = size;
        if first_dead > u32::MAX as u64 {
            proof {
                assert(self@ =~= old(self)@.restrict(
                    old(self)@.dom().filter(|index: u32| index < chunks_for(size as nat)),
                ));
                let dead = Seq::<u32>::empty();
                assert(released(old(self)@, dead, r@));
            }
            return r;
        }
        let gone: Vec<u32> = keys_from(&self.chunks, first_dead as u32);
        let mut i: usize = 0;
        proof {
            assert forall|j: int| 0 <= j < gone@.len() implies self@.contains_key(
                #[trigger] gone@[j],
            ) by {
                assert(gone@.contains(gone@[j]));
            }
        }
        while i < gone.len()
            invariant
                self.region_id == old(self).region_id,
                self.size == size,
                i <= gone.len(),
                gone@.no_duplicates(),
                forall|j: int|
                    0 <= j < gone@.len() ==> old(self)@.contains_key(#[trigger] gone@[j]),
                forall|k: u32| #[trigger]
                    self@.contains_key(k) <==> old(self)@.contains_key(k) && !gone@.take(
                        i as int,
                    ).contains(k),
                forall|k: u32| #[trigger] self@.contains_key(k) ==> self@[k] == old(self)@[k],
                r@.len() == i,
                forall|j: int| 0 <= j < i ==> #[trigger] r@[j] == old(self)@[gone@[j]],
            decreases gone.len() - i,
        {
            let key: u32 = gone[i];
            proof {
                assert forall|j: int| 0 <= j < i implies gone@.take(i as int)[j] != key by {}
                assert(old(self)@.contains_key(gone@[i as int]));
                assert(self@.contains_key(key));
                lemma_keys_gone(gone@, i as int);
            }
            match self.chunks.remove(&key) {
                Some(h) => {
                    r.push(h);
                },
                None => {},
            }
            i = i + 1;
        }
        proof {
            assert(gone@.take(i as int) =~= gone@);
            assert(self@ =~= old(self)@.restrict(
                old(self)@.dom().filter(|index: u32| index < chunks_for(size as nat)),
            ));
            assert(released(old(self)@, gone@, r@));
        }
        r
    }

    /// The file's size.
    pub fn size(&self) -> (r: u64)
        ensures
            r == self.len(),
    {
        self.size
    }
}

} // verus!
