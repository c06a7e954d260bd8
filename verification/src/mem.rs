//! The general-purpose allocator: every block carries a header with the size
//! that was asked for.
//!
//! A block is `HEADER_SIZE` header bytes followed by the payload that the engine
//! sees; the first eight header bytes hold the payload size. The memory itself
//! comes from elsewhere: this module says how much a request takes, lays blocks
//! out and keeps count.

use crate::bytes::{copy_range, splice};
use crate::codes::SQLITE_OK;
use crate::install::{InstallError, InstallGate};
use vstd::bytes::{
    lemma_auto_spec_u64_to_from_le_bytes, spec_u64_from_le_bytes, spec_u64_to_le_bytes,
    u64_from_le_bytes, u64_to_le_bytes,
};
use vstd::prelude::*;

verus! {

/// Bytes in front of every payload.
pub const HEADER_SIZE: usize = 16;

/// The alignment of every block.
pub const ALIGN: usize = 16;

/// What the diagnostics show: how many blocks were allocated, freed and moved,
/// the payload bytes in use, and the payload bytes ever added.
pub struct MemCounts {
    pub mallocs: u64,
    pub frees: u64,
    pub reallocs: u64,
    pub outstanding: u64,
    pub lifetime: u64,
}

/// `a + b`, in the range of a counter.
pub open spec fn plus(a: u64, b: int) -> u64 {
    ((a + b) % 0x1_0000_0000_0000_0000) as u64
}

impl MemCounts {
    /// A block of `size` payload bytes was allocated.
    pub open spec fn malloced(self, size: int) -> MemCounts {
        MemCounts {
            mallocs: plus(self.mallocs, 1),
            outstanding: plus(self.outstanding, size),
            lifetime: plus(self.lifetime, size),
            ..self
        }
    }

    /// A block of `size` payload bytes was freed.
    pub open spec fn freed(self, size: int) -> MemCounts {
        MemCounts {
            frees: plus(self.frees, 1),
            outstanding: plus(self.outstanding, -size),
            ..self
        }
    }

    /// A block of `old` payload bytes became one of `new`.
    pub open spec fn moved(self, old: int, new: int) -> MemCounts {
        MemCounts {
            reallocs: plus(self.reallocs, 1),
            outstanding: plus(self.outstanding, new - old),
            lifetime: if new > old {
                plus(self.lifetime, new - old)
            } else {
                self.lifetime
            },
            ..self
        }
    }

    /// Nothing was counted yet.
    pub fn new() -> (r: Self)
        ensures
            r == (MemCounts { mallocs: 0, frees: 0, reallocs: 0, outstanding: 0, lifetime: 0 }),
    {
        MemCounts { mallocs: 0, frees: 0, reallocs: 0, outstanding: 0, lifetime: 0 }
    }
}

/// (mallocs, frees, reallocs, bytes in use, bytes ever added).
pub fn diagnostics(c: &MemCounts) -> (r: (u64, u64, u64, u64, u64))
    ensures
        r == (c.mallocs, c.frees, c.reallocs, c.outstanding, c.lifetime),
{
    (c.mallocs, c.frees, c.reallocs, c.outstanding, c.lifetime)
}

/// The payload size that a block's header holds.
pub open spec fn size_in(block: Seq<u8>) -> u64 {
    spec_u64_from_le_bytes(block.subrange(0, 8))
}

/// The payload of a block.
pub open spec fn payload(block: Seq<u8>) -> Seq<u8> {
    block.subrange(HEADER_SIZE as int, block.len() as int)
}

/// `block` is laid out: its header holds the size of its payload, which is a
/// size that can be asked for.
pub open spec fn laid_out(block: Seq<u8>) -> bool {
    &&& block.len() > HEADER_SIZE
    &&& block.len() - HEADER_SIZE <= i32::MAX
    &&& size_in(block) == block.len() - HEADER_SIZE
}

/// The bytes of memory that a request for `size` payload bytes takes; `None` if
/// it is refused outright.
pub open spec fn block_bytes(size: i32) -> Option<usize> {
    if size <= 0 || HEADER_SIZE + size > isize::MAX - (ALIGN - 1) {
        None
    } else {
        Some((HEADER_SIZE + size) as usize)
    }
}

/// How much memory an allocation of `size` payload bytes takes; `None` if the
/// answer is a null pointer whatever memory there is.
pub fn x_malloc(size: i32) -> (r: Option<usize>)
    ensures
        r == block_bytes(size),
        0 < size && HEADER_SIZE + size <= isize::MAX - (ALIGN - 1) ==> r == Some(
            (HEADER_SIZE + size) as usize,
        ),
        size <= 0 || HEADER_SIZE + size > isize::MAX - (ALIGN - 1) ==> r is None,
{
    if size <= 0 {
        return None;
    }
    let total: u64 = HEADER_SIZE as u64 + size as u64;
    if total > isize::MAX as u64 - (ALIGN as u64 - 1) {
        return None;
    }
    Some(total as usize)
}

/// Writes the payload size into a header.
fn write_header(block: &mut [u8], size: u64)
    requires
        old(block)@.len() >= HEADER_SIZE,
    ensures
        final(block)@ == splice(old(block)@, 0, spec_u64_to_le_bytes(size)),
        final(block)@.len() == old(block)@.len(),
        size_in(final(block)@) == size,
        final(block)@.subrange(HEADER_SIZE as int, final(block)@.len() as int) == old(
            block,
        )@.subrange(HEADER_SIZE as int, old(block)@.len() as int),
{
    proof {
        lemma_auto_spec_u64_to_from_le_bytes();
    }
    let header: Vec<u8> = u64_to_le_bytes(size);
    copy_range(block, 0, header.as_slice(), 0, 8);
    proof {
        let enc = spec_u64_to_le_bytes(size);
        assert(enc.len() == 8);
        assert(block@ =~= splice(old(block)@, 0, enc));
        assert(block@.subrange(0, 8) =~= enc);
        assert(block@.subrange(HEADER_SIZE as int, block@.len() as int) =~= old(block)@.subrange(
            HEADER_SIZE as int,
            old(block)@.len() as int,
        ));
    }
}

/// Lays out the fresh memory `block` for `size` payload bytes and counts it. The
/// payload keeps whatever bytes the memory came with.
pub fn alloc_with_header(counts: &mut MemCounts, size: i32, block: &mut [u8])
    requires
        block_bytes(size) == Some(old(block)@.len() as usize),
        old(block)@.len() <= usize::MAX,
    ensures
        laid_out(final(block)@),
        size_in(final(block)@) == size,
        final(block)@.len() == old(block)@.len(),
        payload(final(block)@) == payload(old(block)@),
        *final(counts) == old(counts).malloced(size as int),
{
    let user_size: u64 = size as u64;
    write_header(block, user_size);
    counts.mallocs = counts.mallocs.wrapping_add(1);
    counts.outstanding = counts.outstanding.wrapping_add(user_size);
    counts.lifetime = counts.lifetime.wrapping_add(user_size);
}

/// The payload size of the block that starts with the header `header`.
pub fn header_for(header: &[u8]) -> (r: u64)
    requires
        header@.len() >= 8,
    ensures
        r == size_in(header@),
{
    let bytes = vstd::slice::slice_subrange(header, 0, 8);
    u64_from_le_bytes(bytes)
}

/// Counts the release of a block; the result is how much memory goes back.
/// Nothing happens for a null pointer.
pub fn x_free(counts: &mut MemCounts, block: Option<&[u8]>) -> (r: Option<usize>)
    requires
        block is Some ==> laid_out(block->0@),
    ensures
        match block {
            Some(b) => r == Some(b@.len() as usize) && *final(counts) == old(counts).freed(
                size_in(b@) as int,
            ),
            None => r is None && *final(counts) == *old(counts),
        },
{
    match block {
        Some(b) => {
            let size: u64 = header_for(b);
            counts.frees = counts.frees.wrapping_add(1);
            counts.outstanding = counts.outstanding.wrapping_sub(size);
            Some(b.len())
        },
        None => None,
    }
}

/// What a request to change a block's size comes to.
#[derive(Copy, Clone, Debug, PartialEq, Eq, Structural)]
pub enum ReallocPlan {
    /// There is no block yet: allocate one.
    Malloc,
    /// Nothing is to be left: free the block and answer null.
    Free,
    /// Get this much fresh memory and move the block there; if there is none,
    /// answer null and leave the block alone.
    Move(usize),
    /// Answer null and leave the block alone.
    Refuse,
}

/// What a request for `new_size` payload bytes in place of a block comes to.
/// `has_block` is false for a null pointer.
pub fn plan_realloc(has_block: bool, new_size: i32) -> (r: ReallocPlan)
    ensures
        r == if !has_block {
            ReallocPlan::Malloc
        } else if new_size <= 0 {
            ReallocPlan::Free
        } else {
            match block_bytes(new_size) {
                Some(total) => ReallocPlan::Move(total),
                None => ReallocPlan::Refuse,
            }
        },
        has_block && 0 < new_size && HEADER_SIZE + new_size <= isize::MAX - (ALIGN - 1) ==> r
            == ReallocPlan::Move((HEADER_SIZE + new_size) as usize),
        has_block && 0 < new_size && HEADER_SIZE + new_size > isize::MAX - (ALIGN - 1) ==> r
            == ReallocPlan::Refuse,
{
    if !has_block {
        return ReallocPlan::Malloc;
    }
    if new_size <= 0 {
        return ReallocPlan::Free;
    }
    match x_malloc(new_size) {
        Some(total) => ReallocPlan::Move(total),
        None => ReallocPlan::Refuse,
    }
}

/// Moves a block into the fresh memory `new_block`, laid out for `new_size`
/// payload bytes: as many payload bytes as fit come along. The result is how
/// much memory of the old block goes back.
pub fn x_realloc(counts: &mut MemCounts, block: &[u8], new_size: i32, new_block: &mut [u8]) -> (r:
    usize)
    requires
        laid_out(block@),
        block_bytes(new_size) == Some(old(new_block)@.len() as usize),
        old(new_block)@.len() <= usize::MAX,
    ensures
        r == block@.len(),
        laid_out(final(new_block)@),
        size_in(final(new_block)@) == new_size,
        final(new_block)@.len() == old(new_block)@.len(),
        ({
            let kept = if size_in(block@) < new_size {
                size_in(block@) as int
            } else {
                new_size as int
            };
            payload(final(new_block)@) == splice(
                payload(old(new_block)@),
                0,
                payload(block@).take(kept),
            )
        }),
        *final(counts) == old(counts).moved(size_in(block@) as int, new_size as int),
{
    let old_size: u64 = header_for(block);
    let user_size: u64 = new_size as u64;
    write_header(new_block, user_size);
    let ghost laid = new_block@;
    let kept: usize = if old_size < user_size {
        old_size as usize
    } else {
        user_size as usize
    };
    copy_range(new_block, HEADER_SIZE, block, HEADER_SIZE, kept);
    proof {
        let data = payload(block@).take(kept as int);
        assert(block@.subrange(HEADER_SIZE as int, HEADER_SIZE + kept) =~= data);
        assert(new_block@ =~= splice(laid, HEADER_SIZE as int, data));
        assert(new_block@.subrange(0, 8) =~= laid.subrange(0, 8));
        assert(payload(laid) == payload(old(new_block)@));
        assert(payload(new_block@) =~= splice(payload(laid), 0, data));
    }
    counts.reallocs = counts.reallocs.wrapping_add(1);
    if user_size > old_size {
        let delta: u64 = user_size - old_size;
        counts.outstanding = counts.outstanding.wrapping_add(delta);
        counts.lifetime = counts.lifetime.wrapping_add(delta);
    } else {
        let delta: u64 = old_size - user_size;
        counts.outstanding = counts.outstanding.wrapping_sub(delta);
    }
    block.len()
}

/// The payload size of a block, and 0 for a null pointer.
pub fn x_size(block: Option<&[u8]>) -> (r: i32)
    requires
        block is Some ==> laid_out(block->0@),
    ensures
        r == match block {
            Some(b) => size_in(b@) as int,
            None => 0,
        },
{
    match block {
        Some(b) => header_for(b) as i32,
        None => 0,
    }
}

/// `size` rounded up to the alignment.
pub open spec fn rounded_up(size: int) -> int {
    (size + ALIGN - 1) / (ALIGN as int) * ALIGN
}

/// The payload size that a request for `size` bytes is counted as: the next
/// multiple of the alignment, as 32 bits, and 0 for no size.
pub fn x_roundup(size: i32) -> (r: i32)
    ensures
        r == if size <= 0 {
            0i32
        } else {
            rounded_up(size as int) as i32
        },
        0 < size <= i32::MAX - (ALIGN - 1) ==> r == rounded_up(size as int) && size <= r < size
            + ALIGN && r % 16 == 0,
{
    if size <= 0 {
        return 0;
    }
    let aligned: u64 = (size as u64 + (ALIGN as u64 - 1)) / (ALIGN as u64) * (ALIGN as u64);
    aligned as i32
}

/// The text of a registration that the engine refused.
pub open spec fn refused_text() -> Seq<char> {
    "sqlite3_config(SQLITE_CONFIG_MALLOC) failed; must be called before sqlite3_initialize"@
}

/// Settles the registration of the allocator by the engine's answer.
pub fn install(gate: &mut InstallGate, rc: i32) -> (r: Result<(), InstallError>)
    requires
        old(gate)@,
    ensures
        final(gate)@ == (rc == SQLITE_OK),
        match r {
            Ok(()) => rc == SQLITE_OK,
            Err(e) => rc != SQLITE_OK && e.code == rc && e.message@ == refused_text(),
        },
{
    gate.finish(
        rc,
        "sqlite3_config(SQLITE_CONFIG_MALLOC) failed; must be called before sqlite3_initialize",
    )
}

/// A call of the allocator. A block is known by its place among the blocks in
/// use, and `None` is a null pointer; the flag says whether there was memory.
pub enum MemCall {
    Malloc(i32, bool),
    Free(Option<int>),
    Realloc(Option<int>, i32, bool),
}

/// The counts and the payload sizes of the blocks in use.
pub struct MemState {
    pub counts: MemCounts,
    pub live: Seq<int>,
}

impl MemState {
    /// Nothing was counted yet, and no block is in use.
    pub open spec fn fresh() -> MemState {
        MemState {
            counts: MemCounts { mallocs: 0, frees: 0, reallocs: 0, outstanding: 0, lifetime: 0 },
            live: Seq::empty(),
        }
    }

    /// After a request for `size` bytes.
    pub open spec fn after_malloc(self, size: i32, memory: bool) -> MemState {
        if block_bytes(size) is Some && memory {
            MemState {
                counts: self.counts.malloced(size as int),
                live: self.live.push(size as int),
            }
        } else {
            self
        }
    }

    /// After the release of block `i`.
    pub open spec fn after_free(self, i: int) -> MemState {
        MemState { counts: self.counts.freed(self.live[i]), live: self.live.remove(i) }
    }

    /// After the call `c`. Changing the size of no block allocates one, and
    /// changing it to nothing frees the block.
    pub open spec fn after(self, c: MemCall) -> MemState {
        match c {
            MemCall::Malloc(size, memory) => self.after_malloc(size, memory),
            MemCall::Free(None) => self,
            MemCall::Free(Some(i)) => self.after_free(i),
            MemCall::Realloc(None, size, memory) => self.after_malloc(size, memory),
            MemCall::Realloc(Some(i), size, memory) => if size <= 0 {
                self.after_free(i)
            } else if block_bytes(size) is Some && memory {
                MemState {
                    counts: self.counts.moved(self.live[i], size as int),
                    live: self.live.update(i, size as int),
                }
            } else {
                self
            },
        }
    }

    /// The pointer of the call `c` is null or that of a block in use.
    pub open spec fn admits(self, c: MemCall) -> bool {
        match c {
            MemCall::Malloc(_, _) => true,
            MemCall::Free(p) => p is Some ==> 0 <= p->0 < self.live.len(),
            MemCall::Realloc(p, _, _) => p is Some ==> 0 <= p->0 < self.live.len(),
        }
    }

    /// The payload bytes that the call `c` adds.
    pub open spec fn adds(self, c: MemCall) -> int {
        let before = total(self.live);
        let now = total(self.after(c).live);
        if now > before {
            now - before
        } else {
            0
        }
    }
}

/// The state after `calls`.
pub open spec fn ran(calls: Seq<MemCall>) -> MemState
    decreases calls.len(),
{
    if calls.len() == 0 {
        MemState::fresh()
    } else {
        ran(calls.drop_last()).after(calls.last())
    }
}

/// Every pointer that `calls` hand over is null or that of a block in use.
pub open spec fn admitted(calls: Seq<MemCall>) -> bool
    decreases calls.len(),
{
    calls.len() > 0 ==> admitted(calls.drop_last()) && ran(calls.drop_last()).admits(calls.last())
}

/// The payload bytes that `calls` ever added.
pub open spec fn added(calls: Seq<MemCall>) -> int
    decreases calls.len(),
{
    if calls.len() == 0 {
        0
    } else {
        added(calls.drop_last()) + ran(calls.drop_last()).adds(calls.last())
    }
}

/// The sum of `sizes`.
pub open spec fn total(sizes: Seq<int>) -> int
    decreases sizes.len(),
{
    if sizes.len() == 0 {
        0
    } else {
        total(sizes.drop_last()) + sizes.last()
    }
}

proof fn lemma_total_push(sizes: Seq<int>, size: int)
    ensures
        total(sizes.push(size)) == total(sizes) + size,
{
    assert(sizes.push(size).drop_last() =~= sizes);
}

proof fn lemma_total_update(sizes: Seq<int>, i: int, size: int)
    requires
        0 <= i < sizes.len(),
    ensures
        total(sizes.update(i, size)) == total(sizes) - sizes[i] + size,
    decreases sizes.len(),
{
    let init = sizes.drop_last();
    if i < init.len() {
        lemma_total_update(init, i, size);
        assert(sizes.update(i, size).drop_last() =~= init.update(i, size));
    } else {
        assert(sizes.update(i, size).drop_last() =~= init);
    }
}

proof fn lemma_total_remove(sizes: Seq<int>, i: int)
    requires
        0 <= i < sizes.len(),
    ensures
        total(sizes.remove(i)) == total(sizes) - sizes[i],
    decreases sizes.len(),
{
    let init = sizes.drop_last();
    if i < init.len() {
        lemma_total_remove(init, i);
        assert(sizes.remove(i).drop_last() =~= init.remove(i));
    } else {
        assert(sizes.remove(i) =~= init);
    }
}

/// After `calls` calls that added `sum` bytes, the counts follow the blocks.
pub open spec fn balanced(m: MemState, calls: int, sum: int) -> bool {
    &&& m.counts.outstanding == total(m.live)
    &&& m.counts.mallocs - m.counts.frees == m.live.len()
    &&& m.counts.lifetime == sum
    &&& m.counts.lifetime >= m.counts.outstanding
    &&& m.counts.mallocs + m.counts.frees + m.counts.reallocs <= calls
    &&& forall|i: int| 0 <= i < m.live.len() ==> 0 < #[trigger] m.live[i] <= i32::MAX
}

/// No count of `m` is higher than in `n`.
pub open spec fn no_higher(m: MemCounts, n: MemCounts) -> bool {
    &&& m.mallocs <= n.mallocs
    &&& m.frees <= n.frees
    &&& m.reallocs <= n.reallocs
    &&& m.lifetime <= n.lifetime
}

proof fn lemma_plus(a: u64, b: int)
    requires
        0 <= a + b <= u64::MAX,
    ensures
        plus(a, b) == a + b,
{
}

proof fn lemma_balanced_malloc(m: MemState, size: i32, calls: int, sum: int)
    requires
        balanced(m, calls, sum),
        calls < u64::MAX,
        size > 0,
        sum + size <= u64::MAX,
    ensures
        ({
            let n = MemState {
                counts: m.counts.malloced(size as int),
                live: m.live.push(size as int),
            };
            &&& balanced(n, calls + 1, sum + size)
            &&& no_higher(m.counts, n.counts)
            &&& total(n.live) == total(m.live) + size
        }),
{
    lemma_total_push(m.live, size as int);
    lemma_plus(m.counts.mallocs, 1);
    lemma_plus(m.counts.outstanding, size as int);
    lemma_plus(m.counts.lifetime, size as int);
}

proof fn lemma_balanced_free(m: MemState, i: int, calls: int, sum: int)
    requires
        balanced(m, calls, sum),
        calls < u64::MAX,
        0 <= i < m.live.len(),
    ensures
        balanced(m.after_free(i), calls + 1, sum),
        no_higher(m.counts, m.after_free(i).counts),
        total(m.after_free(i).live) < total(m.live),
{
    lemma_total_remove(m.live, i);
    lemma_total_nonnegative(m.live.remove(i));
    lemma_plus(m.counts.frees, 1);
    lemma_plus(m.counts.outstanding, -m.live[i]);
}

proof fn lemma_balanced_move(m: MemState, i: int, size: i32, calls: int, sum: int)
    requires
        balanced(m, calls, sum),
        calls < u64::MAX,
        0 <= i < m.live.len(),
        size > 0,
        size > m.live[i] ==> sum + size - m.live[i] <= u64::MAX,
    ensures
        ({
            let n = MemState {
                counts: m.counts.moved(m.live[i], size as int),
                live: m.live.update(i, size as int),
            };
            &&& balanced(
                n,
                calls + 1,
                if size > m.live[i] {
                    sum + size - m.live[i]
                } else {
                    sum
                },
            )
            &&& no_higher(m.counts, n.counts)
            &&& total(n.live) == total(m.live) + size - m.live[i]
        }),
{
    let live = m.live.update(i, size as int);
    lemma_total_update(m.live, i, size as int);
    assert forall|j: int| 0 <= j < live.len() implies 0 < #[trigger] live[j] <= i32::MAX by {
        assert(j == i || live[j] == m.live[j]);
    }
    lemma_total_nonnegative(live);
    lemma_plus(m.counts.reallocs, 1);
    lemma_plus(m.counts.outstanding, size - m.live[i]);
    if size > m.live[i] {
        lemma_plus(m.counts.lifetime, size - m.live[i]);
    }
}

proof fn lemma_total_nonnegative(sizes: Seq<int>)
    requires
        forall|i: int| 0 <= i < sizes.len() ==> 0 < #[trigger] sizes[i],
    ensures
        total(sizes) >= 0,
    decreases sizes.len(),
{
    if sizes.len() > 0 {
        let init = sizes.drop_last();
        assert forall|i: int| 0 <= i < init.len() implies 0 < #[trigger] init[i] by {
            assert(init[i] == sizes[i]);
        }
        lemma_total_nonnegative(init);
    }
}

proof fn lemma_balanced_after(m: MemState, c: MemCall, calls: int, sum: int)
    requires
        balanced(m, calls, sum),
        m.admits(c),
        calls < u64::MAX,
        sum + m.adds(c) <= u64::MAX,
    ensures
        balanced(m.after(c), calls + 1, sum + m.adds(c)),
        no_higher(m.counts, m.after(c).counts),
{
    match c {
        MemCall::Malloc(size, memory) => {
            lemma_total_push(m.live, size as int);
            if block_bytes(size) is Some && memory {
                lemma_balanced_malloc(m, size, calls, sum);
            }
        },
        MemCall::Free(None) => {},
        MemCall::Free(Some(i)) => {
            lemma_balanced_free(m, i, calls, sum);
        },
        MemCall::Realloc(None, size, memory) => {
            lemma_total_push(m.live, size as int);
            if block_bytes(size) is Some && memory {
                lemma_balanced_malloc(m, size, calls, sum);
            }
        },
        MemCall::Realloc(Some(i), size, memory) => {
            if size <= 0 {
                lemma_balanced_free(m, i, calls, sum);
            } else if block_bytes(size) is Some && memory {
                lemma_total_update(m.live, i, size as int);
                lemma_balanced_move(m, i, size, calls, sum);
            }
        },
    }
}

/// Over any calls, as long as no count exceeds its range: the count of bytes in
/// use is the sum of the sizes of the blocks in use, as many blocks are in use as
/// were allocated and not freed, and no more bytes are in use than were ever
/// added.
pub proof fn lemma_counts_follow_blocks(calls: Seq<MemCall>)
    requires
        admitted(calls),
        calls.len() <= u64::MAX,
        added(calls) <= u64::MAX,
    ensures
        balanced(ran(calls), calls.len() as int, added(calls)),
    decreases calls.len(),
{
    if calls.len() > 0 {
        let before = calls.drop_last();
        lemma_counts_follow_blocks(before);
        lemma_balanced_after(ran(before), calls.last(), before.len() as int, added(before));
    }
}

/// Over any calls, as long as no count exceeds its range, more calls never lower
/// the counts of blocks that were allocated, freed and moved, nor the count of
/// bytes ever added.
pub proof fn lemma_counts_never_fall(calls: Seq<MemCall>, n: int)
    requires
        admitted(calls),
        calls.len() <= u64::MAX,
        added(calls) <= u64::MAX,
        0 <= n <= calls.len(),
    ensures
        no_higher(ran(calls.take(n)).counts, ran(calls).counts),
    decreases calls.len(),
{
    if n < calls.len() {
        let before = calls.drop_last();
        lemma_counts_never_fall(before, n);
        lemma_counts_follow_blocks(before);
        lemma_balanced_after(ran(before), calls.last(), before.len() as int, added(before));
        assert(before.take(n) =~= calls.take(n));
    } else {
        assert(calls.take(n) =~= calls);
    }
}

/// A moved block keeps its payload, as far as the new size reaches.
pub proof fn lemma_realloc_keeps_prefix(payload0: Seq<u8>, fresh: Seq<u8>, kept: int, i: int)
    requires
        0 <= i < kept <= payload0.len(),
        kept <= fresh.len(),
    ensures
        splice(fresh, 0, payload0.take(kept))[i] == payload0[i],
{
}

/// Every request is granted for which there is a layout: the payload and sixteen
/// bytes for the header. No other request is.
pub proof fn lemma_which_requests_are_granted(size: i32)
    ensures
        0 < size && 16 + size <= isize::MAX - 15 ==> block_bytes(size) == Some(
            (16 + size) as usize,
        ),
        size <= 0 || 16 + size > isize::MAX - 15 ==> block_bytes(size) is None,
{
}

/// A block is laid out exactly if the eight bytes at its start, read from the lowest
/// to the highest, are the number of bytes behind the first sixteen.
pub proof fn lemma_what_a_block_is(block: Seq<u8>, i: int)
    requires
        block.len() > 16,
        block.len() <= 16 + i32::MAX,
    ensures
        laid_out(block) <==> spec_u64_from_le_bytes(block.take(8)) == block.len() - 16,
        payload(block).len() == block.len() - 16,
        0 <= i < block.len() - 16 ==> payload(block)[i] == block[16 + i],
{
    assert(block.take(8) =~= block.subrange(0, 8));
}

/// The counts after a block was allocated, freed or moved, in whole numbers: each
/// call adds one to its own count, bytes in use follow the sizes, and bytes ever
/// added only grow.
pub proof fn lemma_what_is_counted(c: MemCounts, old: int, new: int)
    requires
        c.mallocs < u64::MAX,
        c.frees < u64::MAX,
        c.reallocs < u64::MAX,
        0 <= old <= c.outstanding,
        0 <= new <= i32::MAX,
        c.outstanding + new <= u64::MAX,
        c.lifetime + new <= u64::MAX,
    ensures
        ({
            let a = c.malloced(new);
            &&& a.mallocs == c.mallocs + 1
            &&& a.frees == c.frees
            &&& a.reallocs == c.reallocs
            &&& a.outstanding == c.outstanding + new
            &&& a.lifetime == c.lifetime + new
        }),
        ({
            let a = c.freed(old);
            &&& a.mallocs == c.mallocs
            &&& a.frees == c.frees + 1
            &&& a.reallocs == c.reallocs
            &&& a.outstanding == c.outstanding - old
            &&& a.lifetime == c.lifetime
        }),
        ({
            let a = c.moved(old, new);
            &&& a.mallocs == c.mallocs
            &&& a.frees == c.frees
            &&& a.reallocs == c.reallocs + 1
            &&& a.outstanding == c.outstanding - old + new
            &&& new >= old ==> a.lifetime == c.lifetime + (new - old)
            &&& new < old ==> a.lifetime == c.lifetime
        }),
{
    lemma_plus(c.mallocs, 1);
    lemma_plus(c.frees, 1);
    lemma_plus(c.reallocs, 1);
    lemma_plus(c.outstanding, new);
    lemma_plus(c.lifetime, new);
    lemma_plus(c.outstanding, -old);
    lemma_plus(c.outstanding, new - old);
    if new > old {
        lemma_plus(c.lifetime, new - old);
    }
}

/// Rounding up gives the least multiple of sixteen that is not below the size.
pub proof fn lemma_rounding_up(size: int)
    requires
        0 < size,
    ensures
        rounded_up(size) % 16 == 0,
        size <= rounded_up(size) < size + 16,
{
}

} // verus!
