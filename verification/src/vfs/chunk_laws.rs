//! What a file in chunks comes to, byte by byte.

use crate::vfs::chunks::{
    agrees, byte_at, chunks_for, clean, cut, file_of, first_span, full_chunks, holds, padded,
    partly_written, skipped, truncated, ReadJob, WriteJob,
};
use crate::vfs::multi_memory_storage::MultiMemoryStorage;
use crate::vfs::randomness::{random_byte, step, steps};
use crate::vfs::wit_tvm_storage::WitTvmStorage;
use vstd::bytes::spec_u64_to_le_bytes;
use vstd::prelude::*;

verus! {

/// The byte at a place of a file is the one that its chunk has there, and zero where
/// there is no such chunk; a file of a size has the bytes at the places below it.
pub proof fn lemma_bytes_of_a_file(chunks: Map<u64, Seq<u8>>, size: nat, pos: int)
    requires
        0 <= pos <= u64::MAX,
    ensures
        chunks.contains_key((pos / 4096) as u64) ==> byte_at(chunks, pos) == chunks[(pos
            / 4096) as u64][pos % 4096],
        !chunks.contains_key((pos / 4096) as u64) ==> byte_at(chunks, pos) == 0,
        file_of(chunks, size).len() == size,
        pos < size ==> file_of(chunks, size)[pos] == byte_at(chunks, pos),
        clean(chunks, size) && pos >= size ==> byte_at(chunks, pos) == 0,
        full_chunks(chunks) && chunks.contains_key((pos / 4096) as u64) ==> chunks[(pos
            / 4096) as u64].len() == 4096,
{
}

/// What is read agrees with the file where each byte is the file's.
pub proof fn lemma_agreeing(chunks: Map<u64, Seq<u8>>, offset: int, filled: Seq<u8>)
    ensures
        agrees(chunks, offset, filled) <==> forall|i: int|
            0 <= i < filled.len() ==> #[trigger] filled[i] == byte_at(chunks, offset + i),
{
}

/// What is partly written differs from the file before exactly in the bytes that
/// were written.
pub proof fn lemma_partly_written(
    before: Map<u64, Seq<u8>>,
    now: Map<u64, Seq<u8>>,
    offset: int,
    data: Seq<u8>,
    pos: int,
    p: int,
)
    requires
        partly_written(before, now, offset, data, pos),
    ensures
        offset <= p < offset + pos ==> byte_at(now, p) == data[p - offset],
        p < offset || p >= offset + pos ==> byte_at(now, p) == byte_at(before, p),
{
}

/// The first part of an access starts where the access does, lies in one chunk, and
/// ends where the access or the chunk does, whichever comes first.
pub proof fn lemma_first_part(cur: int, end: int)
    requires
        0 <= cur < end <= u64::MAX,
    ensures
        first_span(cur, end).index * 4096 + first_span(cur, end).start == cur,
        first_span(cur, end).start < 4096,
        first_span(cur, end).len > 0,
        cur + first_span(cur, end).len <= end,
        first_span(cur, end).start + first_span(cur, end).len <= 4096,
        cur + first_span(cur, end).len == end || first_span(cur, end).start + first_span(
            cur,
            end,
        ).len == 4096,
{
}

/// A chunk that is too short is filled up with zeros to its full length; one that is
/// cut keeps its bytes up to there and is zeros from there on.
pub proof fn lemma_padding_and_cutting(chunk: Seq<u8>, keep: int, i: int)
    requires
        0 <= i,
        0 <= keep <= chunk.len(),
    ensures
        chunk.len() <= 4096 ==> padded(chunk).len() == 4096,
        chunk.len() > 4096 ==> padded(chunk) == chunk,
        i < chunk.len() ==> padded(chunk)[i] == chunk[i],
        chunk.len() <= i < 4096 ==> padded(chunk)[i] == 0,
        cut(chunk, keep).len() == chunk.len(),
        i < keep ==> cut(chunk, keep)[i] == chunk[i],
        keep <= i < chunk.len() ==> cut(chunk, keep)[i] == 0,
{
}

/// A file reaches into as many chunks as it takes to hold it, and no more.
pub proof fn lemma_number_of_chunks(size: nat)
    ensures
        chunks_for(size) * 4096 >= size,
        size > 0 ==> (chunks_for(size) - 1) * 4096 < size,
        size == 0 ==> chunks_for(size) == 0,
{
}

/// A file that was cut has the chunks that it still reaches into, and no others.
pub proof fn lemma_chunks_that_stay(chunks: Map<u64, Seq<u8>>, size: nat, index: u64)
    ensures
        truncated(chunks, size).contains_key(index) <==> chunks.contains_key(index) && index * 4096
            < size,
{
    assert(truncated(chunks, size).contains_key(index) <==> chunks.contains_key(index) && index
        < chunks_for(size));
}

/// Between two states of a read that only skipped, what was read stays, and what was
/// added agrees with every file that has no other chunks than those that are held.
pub proof fn lemma_skipping(
    held: Set<u64>,
    a: ReadJob,
    b: ReadJob,
    chunks: Map<u64, Seq<u8>>,
    i: int,
)
    requires
        skipped(held, a, b),
        chunks.dom() == held,
        forall|index: u64| #[trigger] chunks.contains_key(index) ==> chunks[index].len() == 4096,
        forall|j: int|
            0 <= j < a.filled().len() ==> #[trigger] a.filled()[j] == byte_at(
                chunks,
                a.offset() + j,
            ),
        0 <= i < b.filled().len(),
    ensures
        b.offset() == a.offset(),
        b.len() == a.len(),
        b.filled().len() >= a.filled().len(),
        i < a.filled().len() ==> b.filled()[i] == a.filled()[i],
        b.filled()[i] == byte_at(chunks, b.offset() + i),
{
    assert(holds(chunks, held));
    assert(agrees(chunks, a.offset(), a.filled()));
    assert(agrees(chunks, b.offset(), b.filled()));
}

/// The chunks of a file in a pool lie one behind the other from its base on.
pub proof fn lemma_where_chunks_lie(f: MultiMemoryStorage, index: u64)
    ensures
        f.addr(index) == f.base() + index * 4096,
{
}

/// The generator multiplies and adds in the range of its state, and gives the eight
/// bytes of each state from the second one on, the lowest byte first.
pub proof fn lemma_generator(s: u64, n: nat, i: int)
    requires
        0 <= i,
    ensures
        step(s) == (s * 0x5DEECE66D + 0xB) % 0x1_0000_0000_0000_0000,
        steps(s, 0) == s,
        steps(s, n + 1) == step(steps(s, n)),
        random_byte(s, i) == spec_u64_to_le_bytes(steps(s, (i / 8 + 1) as nat))[i % 8],
{
    let m = 0x1_0000_0000_0000_0000int;
    let p = s * 0x5DEECE66Dint;
    assert(s.wrapping_mul(0x5DEECE66Du64) == p % m);
    vstd::arithmetic::div_mod::lemma_add_mod_noop(p, 0xBint, m);
    vstd::arithmetic::div_mod::lemma_add_mod_noop(p % m, 0xBint, m);
    vstd::arithmetic::div_mod::lemma_mod_twice(p, m);
}

/// A read or a write is done when every byte is there, and until then its next part
/// starts where it has come to and does not reach beyond its end; a write takes the
/// bytes of its part from the same place of its data.
pub proof fn lemma_jobs_move_on(r: ReadJob, other: ReadJob, w: WriteJob, also: WriteJob)
    ensures
        r.done() <==> r.filled().len() == r.len(),
        r.next() == first_span(r.offset() + r.filled().len(), r.offset() + r.len()),
        r.same(&other) <==> r.offset() == other.offset() && r.len() == other.len(),
        w.done() <==> w.pos() == w.data().len(),
        w.next() == first_span(w.offset() + w.pos(), w.offset() + w.data().len()),
        w.part() == w.data().subrange(w.pos() as int, w.pos() + w.next().len),
        w.whole_chunk() <==> w.next().len == 4096,
        w.same(&also) <==> w.offset() == also.offset() && w.data() == also.data(),
{
}

/// The chunks that are held are those that have a handle.
pub proof fn lemma_held_chunks<H: Copy>(f: WitTvmStorage<H>, index: u64)
    ensures
        f.held().contains(index) <==> index <= u32::MAX && f@.contains_key(index as u32),
{
}

} // verus!
