//! File storage in a slice of a memory pool of its own.
//!
//! A file owns the pool bytes `[base, base + SLICE_BYTES)`, in chunks, and keeps
//! track of the chunks that were written. It decides every access; the pool
//! itself is reached by whoever runs the accesses it hands out.

use crate::codes::{SQLITE_IOERR_SHORT_READ, SQLITE_IOERR_WRITE};
use crate::slices::SliceCursor;
use crate::tables::{keys_from, lemma_keys_gone};
use crate::vfs::chunks::{
    chunks_for, lemma_skip, live_chunks, skipped, ReadJob, ReadStep, Span, WriteJob, WriteStep,
    CHUNK_SIZE,
};
use std::collections::HashMap;
use vstd::prelude::*;

verus! {

/// The pool that holds file bytes.
pub const VFS_POOL: u32 = 2;

/// How many bytes of the pool a file owns.
pub const SLICE_BYTES: u32 = 268435456;

/// How many chunks a file's slice has.
pub const SLICE_CHUNKS: u64 = 65536;

/// No slice of the pool is left.
#[derive(Debug)]
pub struct PoolFull;

/// A file in a slice of the pool.
pub struct MultiMemoryStorage {
    base: u32,
    written_chunks: HashMap<u32, ()>,
    size: u64,
}

impl MultiMemoryStorage {
    /// Where the file's slice starts.
    pub closed spec fn base(&self) -> u32 {
        self.base
    }

    /// The indices of the chunks that were written.
    pub closed spec fn held(&self) -> Set<u64> {
        Set::new(
            |index: u64| index <= u32::MAX && self.written_chunks@.contains_key(index as u32),
        )
    }

    /// The file's size.
    pub closed spec fn len(&self) -> nat {
        self.size as nat
    }

    /// The slice lies within the pool's address range, and the chunks within
    /// the slice.
    pub closed spec fn wf(&self) -> bool {
        &&& self.base + SLICE_BYTES <= u32::MAX
        &&& forall|k: u32| #[trigger] self.written_chunks@.contains_key(k) ==> k < SLICE_CHUNKS
    }

    /// The pool address of chunk `index`.
    pub open spec fn addr(&self, index: u64) -> int {
        self.base() + index * CHUNK_SIZE
    }

    /// An empty file in the next slice of the pool, unless none is left.
    pub fn new(cursor: &mut SliceCursor) -> (r: Result<Self, PoolFull>)
        requires
            old(cursor).wf(),
            old(cursor).slice() == SLICE_BYTES,
        ensures
            final(cursor).wf(),
            final(cursor).slice() == SLICE_BYTES,
            match r {
                Ok(s) => {
                    &&& s.wf()
                    &&& s.base() == old(cursor).next()
                    &&& s.held() == Set::<u64>::empty()
                    &&& s.len() == 0
                    &&& old(cursor).next() + SLICE_BYTES <= u32::MAX
                    &&& final(cursor).next() == old(cursor).next() + SLICE_BYTES
                    &&& final(cursor).handed() == old(cursor).handed().push(old(cursor).next())
                },
                Err(_) => {
                    &&& old(cursor).next() + SLICE_BYTES > u32::MAX
                    &&& final(cursor).next() == old(cursor).next()
                    &&& final(cursor).handed() == old(cursor).handed()
                },
            },
    {
        broadcast use vstd::std_specs::hash::group_hash_axioms;

        match cursor.reserve() {
            Ok(base) => {
                let r = MultiMemoryStorage { base, written_chunks: HashMap::new(), size: 0 };
                assert(r.held() =~= Set::<u64>::empty());
                Ok(r)
            },
            Err(_) => Err(PoolFull),
        }
    }

    /// The pool address of chunk `index`, or `None` if it lies beyond the slice.
    fn chunk_addr(&self, index: u64) -> (r: Option<u32>)
        requires
            self.wf(),
        ensures
            match r {
                Some(a) => index < SLICE_CHUNKS && a == self.addr(index),
                None => index >= SLICE_CHUNKS,
            },
    {
        if index >= SLICE_CHUNKS {
            return None;
        }
        Some(self.base + index as u32 * CHUNK_SIZE)
    }

    fn is_written(&self, index: u64) -> (r: bool)
        requires
            self.wf(),
        ensures
            r == self.held().contains(index),
            r ==> index < SLICE_CHUNKS,
    {
        broadcast use vstd::std_specs::hash::group_hash_axioms;

        if index > u32::MAX as u64 {
            return false;
        }
        self.written_chunks.contains_key(&(index as u32))
    }

    /// Moves a read on to the next chunk that was written, and says where it
    /// lies. Chunks that were not read as zeros. A finished read that extends
    /// past the end of the file is answered with the short-read code.
    pub fn read(&self, job: &mut ReadJob) -> (r: ReadStep<u32>)
        requires
            self.wf(),
            old(job).wf(),
        ensures
            final(job).wf(),
            skipped(self.held(), *old(job), *final(job)),
            match r {
                ReadStep::Chunk(a) => {
                    &&& !final(job).done()
                    &&& self.held().contains(final(job).next().index)
                    &&& a == self.addr(final(job).next().index)
                },
                ReadStep::Done(rc) => {
                    &&& final(job).done()
                    &&& rc == if old(job).offset() + old(job).len() > self.len() {
                        Err::<(), i32>(SQLITE_IOERR_SHORT_READ)
                    } else {
                        Ok(())
                    }
                },
            },
    {
        while !job.is_done()
            invariant
                self.wf(),
                job.wf(),
                skipped(self.held(), *old(job), *job),
            ensures
                job.done(),
            decreases job.len() - job.filled().len(),
        {
            let s: Span = job.span();
            if self.is_written(s.index) {
                match self.chunk_addr(s.index) {
                    Some(a) => {
                        return ReadStep::Chunk(a);
                    },
                    None => {},
                }
            }
            let ghost before = *job;
            job.skip();
            proof {
                lemma_skip(self.held(), *old(job), before, *job);
            }
        }
        if job.end() > self.size {
            return ReadStep::Done(Err(SQLITE_IOERR_SHORT_READ));
        }
        ReadStep::Done(Ok(()))
    }

    /// What a write needs next. A chunk beyond the slice is refused; one that
    /// was written before and is not replaced as a whole has to be read first.
    pub fn write(&self, job: &WriteJob) -> (r: WriteStep<u32>)
        requires
            self.wf(),
            job.wf(),
        ensures
            match r {
                WriteStep::Done => job.done(),
                WriteStep::Refused(rc) => {
                    &&& !job.done()
                    &&& job.next().index >= SLICE_CHUNKS
                    &&& rc == SQLITE_IOERR_WRITE
                },
                WriteStep::Allocate => false,
                WriteStep::Merge(a) => {
                    &&& !job.done()
                    &&& job.next().index < SLICE_CHUNKS
                    &&& self.held().contains(job.next().index)
                    &&& !job.whole_chunk()
                    &&& a == self.addr(job.next().index)
                },
                WriteStep::Put(a) => {
                    &&& !job.done()
                    &&& job.next().index < SLICE_CHUNKS
                    &&& !self.held().contains(job.next().index) || job.whole_chunk()
                    &&& a == self.addr(job.next().index)
                },
            },
    {
        if job.is_done() {
            return WriteStep::Done;
        }
        let s: Span = job.span();
        match self.chunk_addr(s.index) {
            Some(a) => {
                if self.is_written(s.index) && s.len != CHUNK_SIZE as usize {
                    WriteStep::Merge(a)
                } else {
                    WriteStep::Put(a)
                }
            },
            None => WriteStep::Refused(SQLITE_IOERR_WRITE),
        }
    }

    /// The next chunk of a write was stored.
    pub fn chunk_stored(&mut self, job: &mut WriteJob)
        requires
            old(self).wf(),
            old(job).wf(),
            !old(job).done(),
            old(job).next().index < SLICE_CHUNKS,
        ensures
            final(self).wf(),
            final(self).base() == old(self).base(),
            final(self).len() == old(self).len(),
            final(self).held() == old(self).held().insert(old(job).next().index),
            final(job).wf(),
            final(job).same(old(job)),
            final(job).pos() == old(job).pos() + old(job).next().len,
    {
        broadcast use vstd::std_specs::hash::group_hash_axioms;

        let s: Span = job.span();
        self.written_chunks.insert(s.index as u32, ());
        job.advance();
        assert(self.held() =~= old(self).held().insert(s.index));
    }

    /// A write is finished: the file reaches at least to its end.
    pub fn finish_write(&mut self, job: &WriteJob)
        requires
            old(self).wf(),
            job.wf(),
            job.done(),
        ensures
            final(self).wf(),
            final(self).base() == old(self).base(),
            final(self).held() == old(self).held(),
            final(self).len() == if job.offset() + job.data().len() > old(self).len() {
                (job.offset() + job.data().len()) as nat
            } else {
                old(self).len()
            },
    {
        let end: u64 = job.end();
        if end > self.size {
            self.size = end;
        }
        assert(self.held() =~= old(self).held());
    }

    /// Sets the file's size. Chunks past the end are forgotten. Where the file
    /// shrinks into a chunk, that chunk has to be zeroed from the new end on:
    /// the result is its pool address and how many of its bytes stay.
    pub fn truncate(&mut self, size: u64) -> (r: Option<(u32, usize)>)
        requires
            old(self).wf(),
        ensures
            final(self).wf(),
            final(self).base() == old(self).base(),
            final(self).len() == size,
            final(self).held() == old(self).held().filter(
                |index: u64| index < chunks_for(size as nat),
            ),
            ({
                let last = (size / 4096) as u64;
                match r {
                    Some((a, keep)) => {
                        &&& size < old(self).len()
                        &&& size % 4096 != 0
                        &&& old(self).held().contains(last)
                        &&& a == old(self).addr(last)
                        &&& keep == size % 4096
                    },
                    None => size >= old(self).len() || size % 4096 == 0 || !old(
                        self,
                    ).held().contains(last),
                }
            }),
    {
        broadcast use vstd::std_specs::hash::group_hash_axioms;

        let last: u64 = size / CHUNK_SIZE as u64;
        let keep: u64 = size % CHUNK_SIZE as u64;
        let mut r: Option<(u32, usize)> = None;
        if size < self.size && keep != 0 && self.is_written(last) {
            match self.chunk_addr(last) {
                Some(a) => {
                    r = Some((a, keep as usize));
                },
                None => {},
            }
        }
        let first_dead: u64 = live_chunks(size);
        if first_dead <= u32::MAX as u64 {
            let gone: Vec<u32> = keys_from(&self.written_chunks, first_dead as u32);
            let mut i: usize = 0;
            while i < gone.len()
                invariant
                    self.base == old(self).base,
                    self.size == old(self).size,
                    i <= gone.len(),
                    forall|k: u32| #[trigger]
                        self.written_chunks@.contains_key(k) <==> old(
                            self,
                        ).written_chunks@.contains_key(k) && !gone@.take(i as int).contains(k),
                decreases gone.len() - i,
            {
                self.written_chunks.remove(&gone[i]);
                proof {
                    lemma_keys_gone(gone@, i as int);
                }
                i = i + 1;
            }
            assert(gone@.take(i as int) =~= gone@);
        }
        self.size = size;
        assert(self.held() =~= old(self).held().filter(
            |index: u64| index < chunks_for(size as nat),
        ));
        r
    }

    /// The file's size.
    pub fn size(&self) -> (r: u64)
        ensures
            r == self.len(),
    {
        self.size
    }
}

/// Two chunks of a file, or chunks of two files, share no byte of the pool.
pub proof fn lemma_chunks_apart(base1: int, index1: u64, base2: int, index2: u64)
    requires
        index1 < SLICE_CHUNKS,
        index2 < SLICE_CHUNKS,
        base1 == base2 && index1 != index2 || base1 + SLICE_BYTES <= base2 || base2 + SLICE_BYTES
            <= base1,
    ensures
        ({
            let a1 = base1 + index1 * CHUNK_SIZE;
            let a2 = base2 + index2 * CHUNK_SIZE;
            a1 + CHUNK_SIZE <= a2 || a2 + CHUNK_SIZE <= a1
        }),
{
}

} // verus!
