//! Files in fixed-size chunks: which chunk an access touches next, what goes
//! into it, and what the chunks amount to as a file.
//!
//! The chunks themselves are kept elsewhere. A read or a write is a job that
//! asks for one chunk after the other and is handed the chunk's bytes.

use crate::bytes::{copy_range, fill_zero, splice, zeroed, zeros};
use crate::vfs::storage::{overwritten, resized, window};
use vstd::prelude::*;

verus! {

/// The size of a chunk.
pub const CHUNK_SIZE: u32 = 4096;

/// The part of an access that lies in one chunk: the chunk's index, and the
/// first byte and the number of bytes in it.
#[derive(Copy, Clone, Debug, PartialEq, Eq, Structural)]
pub struct Span {
    pub index: u64,
    pub start: usize,
    pub len: usize,
}

/// The part of the access `[cur, end)` that lies in its first chunk.
pub open spec fn first_span(cur: int, end: int) -> Span {
    let start = cur % (CHUNK_SIZE as int);
    let room = CHUNK_SIZE - start;
    Span {
        index: (cur / (CHUNK_SIZE as int)) as u64,
        start: start as usize,
        len: if end - cur < room {
            (end - cur) as usize
        } else {
            room as usize
        },
    }
}

/// The part of the access `[cur, end)` that lies in its first chunk.
fn span_at(cur: u64, end: u64) -> (r: Span)
    requires
        cur < end,
    ensures
        r == first_span(cur as int, end as int),
        r.index == cur / 4096,
        r.start == cur % 4096,
        0 < r.len <= 4096 - r.start,
        r.len <= end - cur,
        r.len == end - cur || r.start + r.len == 4096,
{
    let start: u64 = cur % CHUNK_SIZE as u64;
    let room: u64 = CHUNK_SIZE as u64 - start;
    let len: u64 = if end - cur < room {
        end - cur
    } else {
        room
    };
    Span { index: cur / CHUNK_SIZE as u64, start: start as usize, len: len as usize }
}

/// A read in progress.
pub struct ReadJob {
    offset: u64,
    len: usize,
    filled: Vec<u8>,
}

impl ReadJob {
    /// Where the read starts.
    pub closed spec fn offset(&self) -> int {
        self.offset as int
    }

    /// How many bytes are wanted.
    pub closed spec fn len(&self) -> nat {
        self.len as nat
    }

    /// The bytes there are so far.
    pub closed spec fn filled(&self) -> Seq<u8> {
        self.filled@
    }

    /// The job is within the range of offsets and no more is filled than wanted.
    pub closed spec fn wf(&self) -> bool {
        &&& self.offset + self.len <= u64::MAX
        &&& self.filled@.len() <= self.len
    }

    /// Every byte is there.
    pub open spec fn done(&self) -> bool {
        self.filled().len() == self.len()
    }

    /// The part that is read next.
    pub open spec fn next(&self) -> Span {
        first_span(self.offset() + self.filled().len(), self.offset() + self.len())
    }

    /// The same read, however far it has come.
    pub open spec fn same(&self, other: &Self) -> bool {
        self.offset() == other.offset() && self.len() == other.len()
    }

    /// A read of `len` bytes at `offset`.
    pub fn new(offset: u64, len: usize) -> (r: Self)
        requires
            offset + len <= u64::MAX,
        ensures
            r.wf(),
            r.offset() == offset,
            r.len() == len,
            r.filled() == Seq::<u8>::empty(),
    {
        ReadJob { offset, len, filled: Vec::new() }
    }

    /// Whether every byte is there.
    pub fn is_done(&self) -> (r: bool)
        requires
            self.wf(),
        ensures
            r == self.done(),
            !r ==> self.filled().len() < self.len(),
    {
        self.filled.len() == self.len
    }

    /// The part that is read next.
    pub fn span(&self) -> (r: Span)
        requires
            self.wf(),
            !self.done(),
        ensures
            r == self.next(),
            r.index == (self.offset() + self.filled().len()) / 4096,
            r.start == (self.offset() + self.filled().len()) % 4096,
            0 < r.len <= 4096 - r.start,
            self.filled().len() + r.len <= self.len(),
            r.len == self.len() - self.filled().len() || r.start + r.len == 4096,
    {
        span_at(self.offset + self.filled.len() as u64, self.offset + self.len as u64)
    }

    /// Hands over the chunk that is read next. `false` if it is too short.
    pub fn supply(&mut self, chunk: &[u8]) -> (r: bool)
        requires
            old(self).wf(),
            !old(self).done(),
        ensures
            final(self).wf(),
            final(self).same(old(self)),
            r == (chunk@.len() >= old(self).next().start + old(self).next().len),
            final(self).filled() == if r {
                old(self).filled() + chunk@.subrange(
                    old(self).next().start as int,
                    old(self).next().start + old(self).next().len,
                )
            } else {
                old(self).filled()
            },
    {
        let s: Span = self.span();
        if chunk.len() < s.start + s.len {
            return false;
        }
        let part = vstd::slice::slice_subrange(chunk, s.start, s.start + s.len);
        self.filled.extend_from_slice(part);
        assert(self.filled@ =~= old(self).filled@ + part@);
        true
    }

    /// The chunk that is read next was never written: it reads as zeros.
    pub fn skip(&mut self)
        requires
            old(self).wf(),
            !old(self).done(),
        ensures
            final(self).wf(),
            final(self).same(old(self)),
            final(self).filled() == old(self).filled() + zeros(old(self).next().len as nat),
            final(self).filled().len() > old(self).filled().len(),
    {
        let s: Span = self.span();
        let mut part: Vec<u8> = zeroed(s.len);
        self.filled.append(&mut part);
    }

    /// The end of the read, in the file.
    pub fn end(&self) -> (r: u64)
        requires
            self.wf(),
        ensures
            r == self.offset() + self.len(),
    {
        self.offset + self.len as u64
    }

    /// The bytes that were read.
    pub fn into_bytes(self) -> (r: Vec<u8>)
        ensures
            r@ == self.filled(),
    {
        self.filled
    }
}

/// A write in progress.
pub struct WriteJob {
    offset: u64,
    data: Vec<u8>,
    pos: usize,
}

/// A chunk with at least its full length: what is missing is zeros.
pub open spec fn padded(chunk: Seq<u8>) -> Seq<u8> {
    if chunk.len() < CHUNK_SIZE {
        chunk + zeros((CHUNK_SIZE - chunk.len()) as nat)
    } else {
        chunk
    }
}

impl WriteJob {
    /// Where the write starts.
    pub closed spec fn offset(&self) -> int {
        self.offset as int
    }

    /// What is written.
    pub closed spec fn data(&self) -> Seq<u8> {
        self.data@
    }

    /// How much of it has been written.
    pub closed spec fn pos(&self) -> nat {
        self.pos as nat
    }

    /// The job is within the range of offsets.
    pub closed spec fn wf(&self) -> bool {
        &&& self.offset + self.data@.len() <= u64::MAX
        &&& self.pos <= self.data@.len()
    }

    /// Every byte has been written.
    pub open spec fn done(&self) -> bool {
        self.pos() == self.data().len()
    }

    /// The part that is written next.
    pub open spec fn next(&self) -> Span {
        first_span(self.offset() + self.pos(), self.offset() + self.data().len())
    }

    /// The bytes that are written next.
    pub open spec fn part(&self) -> Seq<u8> {
        self.data().subrange(self.pos() as int, self.pos() + self.next().len)
    }

    /// The next part fills its chunk.
    pub open spec fn whole_chunk(&self) -> bool {
        self.next().len == CHUNK_SIZE
    }

    /// The same write, however far it has come.
    pub open spec fn same(&self, other: &Self) -> bool {
        self.offset() == other.offset() && self.data() == other.data()
    }

    /// A write of `data` at `offset`.
    pub fn new(offset: u64, data: &[u8]) -> (r: Self)
        requires
            offset + data@.len() <= u64::MAX,
        ensures
            r.wf(),
            r.offset() == offset,
            r.data() == data@,
            r.pos() == 0,
    {
        WriteJob { offset, data: vstd::slice::slice_to_vec(data), pos: 0 }
    }

    /// Whether every byte has been written.
    pub fn is_done(&self) -> (r: bool)
        requires
            self.wf(),
        ensures
            r == self.done(),
            !r ==> self.pos() < self.data().len(),
    {
        self.pos == self.data.len()
    }

    /// The part that is written next.
    pub fn span(&self) -> (r: Span)
        requires
            self.wf(),
            !self.done(),
        ensures
            r == self.next(),
            r.index == (self.offset() + self.pos()) / 4096,
            r.start == (self.offset() + self.pos()) % 4096,
            0 < r.len <= 4096 - r.start,
            self.pos() + r.len <= self.data().len(),
            r.len == self.data().len() - self.pos() || r.start + r.len == 4096,
    {
        span_at(self.offset + self.pos as u64, self.offset + self.data.len() as u64)
    }

    /// The chunk as it has to be stored: the bytes that are written next, in
    /// place in the bytes that the chunk has now.
    pub fn compose(&self, existing: &[u8]) -> (r: Vec<u8>)
        requires
            self.wf(),
            !self.done(),
        ensures
            r@ == splice(padded(existing@), self.next().start as int, self.part()),
            self.next().start + self.part().len() <= CHUNK_SIZE,
            self.whole_chunk() && existing@.len() <= CHUNK_SIZE ==> r@ == self.part(),
    {
        let s: Span = self.span();
        let mut chunk: Vec<u8> = vstd::slice::slice_to_vec(existing);
        if chunk.len() < CHUNK_SIZE as usize {
            let mut tail: Vec<u8> = zeroed(CHUNK_SIZE as usize - chunk.len());
            chunk.append(&mut tail);
        }
        assert(chunk@ =~= padded(existing@));
        copy_range(chunk.as_mut_slice(), s.start, self.data.as_slice(), self.pos, s.len);
        assert(chunk@ =~= splice(padded(existing@), s.start as int, self.part()));
        assert(self.whole_chunk() && existing@.len() <= CHUNK_SIZE ==> chunk@ =~= self.part());
        chunk
    }

    /// The next part has been written.
    pub fn advance(&mut self)
        requires
            old(self).wf(),
            !old(self).done(),
        ensures
            final(self).wf(),
            final(self).same(old(self)),
            final(self).pos() == old(self).pos() + old(self).next().len,
    {
        let s: Span = self.span();
        assert(self.pos + s.len <= self.data.len());
        self.pos = self.pos + s.len;
    }

    /// The end of the write, in the file.
    pub fn end(&self) -> (r: u64)
        requires
            self.wf(),
        ensures
            r == self.offset() + self.data().len(),
    {
        self.offset + self.data.len() as u64
    }
}

/// The number of chunks that a file of `size` bytes reaches into.
pub open spec fn chunks_for(size: nat) -> int {
    (size + CHUNK_SIZE - 1) / (CHUNK_SIZE as int)
}

/// The number of chunks that a file of `size` bytes reaches into.
pub fn live_chunks(size: u64) -> (r: u64)
    ensures
        r == chunks_for(size as nat),
{
    let whole: u64 = size / CHUNK_SIZE as u64;
    if size % CHUNK_SIZE as u64 == 0 {
        whole
    } else {
        whole + 1
    }
}

/// A chunk with zeros from `keep` on.
pub open spec fn cut(chunk: Seq<u8>, keep: int) -> Seq<u8> {
    Seq::new(
        chunk.len(),
        |i: int|
            if i < keep {
                chunk[i]
            } else {
                0u8
            },
    )
}

/// Zeroes a chunk from `keep` on.
pub fn cut_chunk(chunk: &mut [u8], keep: usize)
    requires
        keep <= old(chunk)@.len(),
    ensures
        final(chunk)@ == cut(old(chunk)@, keep as int),
{
    let n: usize = chunk.len();
    fill_zero(chunk, keep, n - keep);
    assert(chunk@ =~= cut(old(chunk)@, keep as int));
}

/// The byte at `pos` of the file that `chunks` amount to: a chunk that was never
/// written reads as zeros.
pub open spec fn byte_at(chunks: Map<u64, Seq<u8>>, pos: int) -> u8 {
    let index = (pos / (CHUNK_SIZE as int)) as u64;
    if 0 <= pos && pos / (CHUNK_SIZE as int) <= u64::MAX && chunks.contains_key(index) {
        chunks[index][pos % (CHUNK_SIZE as int)]
    } else {
        0
    }
}

/// Every chunk has the full length.
pub open spec fn full_chunks(chunks: Map<u64, Seq<u8>>) -> bool {
    forall|index: u64| #[trigger] chunks.contains_key(index) ==> chunks[index].len() == CHUNK_SIZE
}

/// The file of `size` bytes that `chunks` amount to.
pub open spec fn file_of(chunks: Map<u64, Seq<u8>>, size: nat) -> Seq<u8> {
    Seq::new(size, |i: int| byte_at(chunks, i))
}

/// The chunks hold nothing past the end of the file.
pub open spec fn clean(chunks: Map<u64, Seq<u8>>, size: nat) -> bool {
    forall|pos: int| size <= pos ==> #[trigger] byte_at(chunks, pos) == 0
}

/// `filled` is what the file holds at `offset`.
pub open spec fn agrees(chunks: Map<u64, Seq<u8>>, offset: int, filled: Seq<u8>) -> bool {
    forall|i: int| 0 <= i < filled.len() ==> #[trigger] filled[i] == byte_at(chunks, offset + i)
}

/// A read that was handed the next chunk, or skips one that was never written,
/// still agrees with the file.
pub proof fn lemma_read_step(chunks: Map<u64, Seq<u8>>, offset: int, end: int, filled: Seq<u8>)
    requires
        0 <= offset,
        offset + filled.len() < end <= u64::MAX,
        full_chunks(chunks),
        agrees(chunks, offset, filled),
    ensures
        ({
            let s = first_span(offset + filled.len(), end);
            agrees(
                chunks,
                offset,
                filled + if chunks.contains_key(s.index) {
                    chunks[s.index].subrange(s.start as int, s.start + s.len)
                } else {
                    zeros(s.len as nat)
                },
            )
        }),
{
    let cur = offset + filled.len();
    let s = first_span(cur, end);
    let part = if chunks.contains_key(s.index) {
        chunks[s.index].subrange(s.start as int, s.start + s.len)
    } else {
        zeros(s.len as nat)
    };
    let all = filled + part;
    assert forall|i: int| 0 <= i < all.len() implies #[trigger] all[i] == byte_at(
        chunks,
        offset + i,
    ) by {
        if i < filled.len() {
            assert(all[i] == filled[i]);
        } else {
            let d = i - filled.len();
            assert(all[i] == part[d]);
            assert((cur + d) / 4096 == cur / 4096 && (cur + d) % 4096 == cur % 4096 + d);
        }
    }
}

/// A read that is done shows the file's bytes, with zeros past its end.
pub proof fn lemma_read_done(chunks: Map<u64, Seq<u8>>, size: nat, offset: int, filled: Seq<u8>)
    requires
        0 <= offset,
        clean(chunks, size),
        agrees(chunks, offset, filled),
    ensures
        filled == window(file_of(chunks, size), offset, filled.len()),
{
    assert(filled =~= window(file_of(chunks, size), offset, filled.len())) by {
        assert forall|i: int| 0 <= i < filled.len() implies #[trigger] filled[i] == window(
            file_of(chunks, size),
            offset,
            filled.len(),
        )[i] by {
            assert(filled[i] == byte_at(chunks, offset + i));
        }
    }
}

/// The first `pos` bytes of `data` are in the file `now`, and nothing else
/// differs from the file `before`.
pub open spec fn partly_written(
    before: Map<u64, Seq<u8>>,
    now: Map<u64, Seq<u8>>,
    offset: int,
    data: Seq<u8>,
    pos: int,
) -> bool {
    forall|p: int| #[trigger]
        byte_at(now, p) == if offset <= p < offset + pos {
            data[p - offset]
        } else {
            byte_at(before, p)
        }
}

/// Storing the next chunk with the next part in place writes that part and
/// nothing else. A chunk that was never written starts as zeros.
pub proof fn lemma_write_step(
    before: Map<u64, Seq<u8>>,
    now: Map<u64, Seq<u8>>,
    offset: int,
    data: Seq<u8>,
    pos: int,
    existing: Seq<u8>,
)
    requires
        0 <= offset,
        0 <= pos < data.len(),
        offset + data.len() <= u64::MAX,
        partly_written(before, now, offset, data, pos),
        existing.len() <= CHUNK_SIZE,
        ({
            let s = first_span(offset + pos, offset + data.len());
            if now.contains_key(s.index) {
                padded(existing) == now[s.index]
            } else {
                padded(existing) == zeros(CHUNK_SIZE as nat)
            }
        }),
    ensures
        ({
            let s = first_span(offset + pos, offset + data.len());
            partly_written(
                before,
                now.insert(
                    s.index,
                    splice(
                        padded(existing),
                        s.start as int,
                        data.subrange(pos, pos + s.len),
                    ),
                ),
                offset,
                data,
                pos + s.len,
            )
        }),
{
    let s = first_span(offset + pos, offset + data.len());
    let part = data.subrange(pos, pos + s.len);
    let after = now.insert(s.index, splice(padded(existing), s.start as int, part));
    let cur = offset + pos;
    assert forall|p: int| #[trigger] byte_at(after, p) == if offset <= p < offset + pos + s.len {
        data[p - offset]
    } else {
        byte_at(before, p)
    } by {
        assert(byte_at(now, p) == if offset <= p < offset + pos {
            data[p - offset]
        } else {
            byte_at(before, p)
        });
        if p >= 0 && p / 4096 == s.index {
            assert(p / 4096 == cur / 4096);
            let at = p % 4096;
            assert(p - cur == at - s.start);
            assert(0 <= at < 4096);
            if s.start <= at < s.start + s.len {
                assert(byte_at(after, p) == part[at - s.start]);
            } else {
                assert(byte_at(after, p) == padded(existing)[at]);
            }
        } else {
            if cur <= p < cur + s.len {
                assert(p / 4096 == cur / 4096);
            }
        }
    }
}

/// A finished write leaves the file that it should, and nothing past its end.
pub proof fn lemma_write_done(
    before: Map<u64, Seq<u8>>,
    now: Map<u64, Seq<u8>>,
    size: nat,
    offset: int,
    data: Seq<u8>,
)
    requires
        0 <= offset,
        clean(before, size),
        partly_written(before, now, offset, data, data.len() as int),
    ensures
        ({
            let end = offset + data.len();
            let new_size = if end > size {
                end as nat
            } else {
                size
            };
            &&& file_of(now, new_size) == overwritten(file_of(before, size), offset, data)
            &&& clean(now, new_size)
        }),
{
    let end = offset + data.len();
    let new_size = if end > size {
        end as nat
    } else {
        size
    };
    let a = file_of(now, new_size);
    let b = overwritten(file_of(before, size), offset, data);
    assert(a.len() == b.len());
    assert forall|i: int| 0 <= i < a.len() implies a[i] == b[i] by {
        assert(a[i] == byte_at(now, i));
        if i >= size {
            assert(byte_at(before, i) == 0);
        }
    }
    assert(a =~= b);
    assert forall|pos: int| new_size <= pos implies #[trigger] byte_at(now, pos) == 0 by {
        assert(byte_at(before, pos) == 0);
    }
}

/// The chunks of a file that was cut or grown to `size` bytes: those past the
/// end are forgotten, and the last one holds nothing past the end.
pub open spec fn truncated(chunks: Map<u64, Seq<u8>>, size: nat) -> Map<u64, Seq<u8>> {
    chunks.restrict(
        chunks.dom().filter(|index: u64| index < chunks_for(size)),
    ).map_entries(
        |index: u64, chunk: Seq<u8>|
            if index == size / (CHUNK_SIZE as nat) {
                cut(chunk, (size % (CHUNK_SIZE as nat)) as int)
            } else {
                chunk
            },
    )
}

/// Cutting or growing a file keeps its bytes up to the new size and reads as
/// zeros from its old end on.
pub proof fn lemma_truncated(chunks: Map<u64, Seq<u8>>, old_size: nat, size: nat)
    requires
        clean(chunks, old_size),
        size <= u64::MAX,
        full_chunks(chunks),
    ensures
        file_of(truncated(chunks, size), size) == resized(file_of(chunks, old_size), size),
        clean(truncated(chunks, size), size),
{
    let t = truncated(chunks, size);
    assert forall|pos: int| 0 <= pos implies #[trigger] byte_at(t, pos) == if pos < size {
        byte_at(chunks, pos)
    } else {
        0u8
    } by {
        let index = (pos / 4096) as u64;
        if pos / 4096 <= u64::MAX {
            assert(t.contains_key(index) <==> chunks.contains_key(index) && index < chunks_for(
                size,
            ));
            if pos < size {
                assert(pos / 4096 < chunks_for(size));
            } else {
                assert(pos / 4096 >= size / 4096);
                if pos / 4096 > size / 4096 {
                    assert(pos / 4096 >= chunks_for(size));
                }
            }
        }
    }
    let a = file_of(t, size);
    let b = resized(file_of(chunks, old_size), size);
    assert forall|i: int| 0 <= i < size implies a[i] == b[i] by {
        assert(a[i] == byte_at(t, i));
        assert(byte_at(chunks, i) == byte_at(chunks, i));
    }
    assert(a =~= b);
    assert forall|pos: int| size <= pos implies #[trigger] byte_at(t, pos) == 0 by {}
}

/// What a read needs next: a chunk from where `T` says, or nothing any more.
#[derive(Debug)]
pub enum ReadStep<T> {
    Chunk(T),
    Done(Result<(), i32>),
}

/// What a write needs next.
#[derive(Debug)]
pub enum WriteStep<T> {
    /// Nothing: every byte has been written.
    Done,
    /// The write fails with this code.
    Refused(i32),
    /// A place for the next chunk.
    Allocate,
    /// The chunk there is to be read, composed and stored again.
    Merge(T),
    /// The chunk is to be composed from nothing and stored there.
    Put(T),
}

/// `chunks` are full chunks with the indices in `held`.
pub open spec fn holds(chunks: Map<u64, Seq<u8>>, held: Set<u64>) -> bool {
    chunks.dom() == held && full_chunks(chunks)
}

/// Between `a` and `b` a read only skipped chunks that are not held.
pub open spec fn skipped(held: Set<u64>, a: ReadJob, b: ReadJob) -> bool {
    &&& b.same(&a)
    &&& a.filled().is_prefix_of(b.filled())
    &&& forall|chunks: Map<u64, Seq<u8>>|
        holds(chunks, held) && agrees(chunks, a.offset(), a.filled()) ==> #[trigger] agrees(
            chunks,
            b.offset(),
            b.filled(),
        )
}

/// Skipping one more chunk that is not held is still only skipping.
pub(crate) proof fn lemma_skip(held: Set<u64>, a: ReadJob, b: ReadJob, c: ReadJob)
    requires
        skipped(held, a, b),
        b.wf(),
        !b.done(),
        !held.contains(b.next().index),
        c.same(&b),
        c.filled() == b.filled() + zeros(b.next().len as nat),
    ensures
        skipped(held, a, c),
{
    assert forall|chunks: Map<u64, Seq<u8>>|
        holds(chunks, held) && agrees(chunks, a.offset(), a.filled()) implies #[trigger] agrees(
        chunks,
        c.offset(),
        c.filled(),
    ) by {
        assert(agrees(chunks, b.offset(), b.filled()));
        assert(b.filled().len() < b.len());
        lemma_read_step(chunks, b.offset(), b.offset() + b.len(), b.filled());
    }
}

} // verus!
