//! What holds the bytes of one file.

use crate::bytes::{copy_range, fill_zero};
use crate::codes::{SQLITE_IOERR_SHORT_READ, SQLITE_OK};
use vstd::prelude::*;

verus! {

/// The result of a storage operation: an error is one of the engine's codes.
pub type StorageResult<T> = Result<T, i32>;

/// What a storage holds and promises, as ghost functions.
pub trait StorageModel: Sized {
    /// The implementation's own invariant.
    spec fn inv(&self) -> bool;

    /// The bytes of the file.
    spec fn content(&self) -> Seq<u8>;

    /// A file of `size` bytes can be asked for.
    spec fn fits(&self, size: int) -> bool;

    /// No operation fails but for a read past the end.
    spec fn reliable(&self) -> bool;
}

/// The `n` bytes of `content` at `offset`, with zeros past its end.
pub open spec fn window(content: Seq<u8>, offset: int, n: nat) -> Seq<u8> {
    Seq::new(
        n,
        |i: int|
            if offset + i < content.len() {
                content[offset + i]
            } else {
                0u8
            },
    )
}

/// `content` after `data` was written at `offset`; a gap reads as zeros.
pub open spec fn overwritten(content: Seq<u8>, offset: int, data: Seq<u8>) -> Seq<u8> {
    Seq::new(
        if content.len() > offset + data.len() {
            content.len()
        } else {
            (offset + data.len()) as nat
        },
        |i: int|
            if offset <= i < offset + data.len() {
                data[i - offset]
            } else if i < content.len() {
                content[i]
            } else {
                0u8
            },
    )
}

/// `content` cut or grown with zeros to `size` bytes.
pub open spec fn resized(content: Seq<u8>, size: nat) -> Seq<u8> {
    window(content, 0, size)
}

/// Per-file storage.
pub trait FileStorage: StorageModel + Send {
    /// Fills `buf` with the bytes at `offset`. A read that extends past the end
    /// of the file is zero-filled there and answered with the short-read code.
    fn read(&self, offset: u64, buf: &mut [u8]) -> (r: StorageResult<()>)
        requires
            self.inv(),
        ensures
            final(buf)@.len() == old(buf)@.len(),
            r is Ok || r == Err::<(), i32>(SQLITE_IOERR_SHORT_READ) ==> final(buf)@ == window(
                self.content(),
                offset as int,
                old(buf)@.len(),
            ),
            r is Ok ==> offset + old(buf)@.len() <= self.content().len(),
            r == Err::<(), i32>(SQLITE_IOERR_SHORT_READ) && old(buf)@.len() > 0 ==> offset + old(
                buf,
            )@.len() > self.content().len(),
            self.reliable() ==> r is Ok || r == Err::<(), i32>(SQLITE_IOERR_SHORT_READ),
            r is Err ==> r->Err_0 != SQLITE_OK,
    ;

    /// Writes `buf` at `offset`; the file grows to hold it.
    fn write(&mut self, offset: u64, buf: &[u8]) -> (r: StorageResult<()>)
        requires
            old(self).inv(),
            offset + buf@.len() <= u64::MAX,
            old(self).fits(offset + buf@.len()),
        ensures
            final(self).inv(),
            final(self).reliable() == old(self).reliable(),
            r is Ok ==> final(self).content() == overwritten(
                old(self).content(),
                offset as int,
                buf@,
            ),
            old(self).reliable() ==> r is Ok,
            r is Err ==> r->Err_0 != SQLITE_OK,
    ;

    /// Sets the file's size to `size` bytes: it grows with zeros and shrinks by
    /// truncation.
    fn truncate(&mut self, size: u64) -> (r: StorageResult<()>)
        requires
            old(self).inv(),
            old(self).fits(size as int),
        ensures
            final(self).inv(),
            final(self).reliable() == old(self).reliable(),
            r is Ok ==> final(self).content() == resized(old(self).content(), size as nat),
            old(self).reliable() ==> r is Ok,
            r is Err ==> r->Err_0 != SQLITE_OK,
    ;

    /// The file's size.
    fn size(&self) -> (r: u64)
        requires
            self.inv(),
        ensures
            r == self.content().len(),
    ;
}

/// The in-process storage: one buffer per file.
pub struct InProcStorage {
    bytes: Vec<u8>,
}

impl View for InProcStorage {
    type V = Seq<u8>;

    closed spec fn view(&self) -> Seq<u8> {
        self.bytes@
    }
}

impl InProcStorage {
    /// An empty file.
    pub fn new() -> (r: Self)
        ensures
            r.inv(),
            r@ == Seq::<u8>::empty(),
    {
        InProcStorage { bytes: Vec::new() }
    }
}

impl Default for InProcStorage {
    fn default() -> (r: Self)
        ensures
            r.inv(),
            r@ == Seq::<u8>::empty(),
    {
        InProcStorage::new()
    }
}

impl StorageModel for InProcStorage {
    open spec fn inv(&self) -> bool {
        true
    }

    open spec fn content(&self) -> Seq<u8> {
        self@
    }

    open spec fn fits(&self, size: int) -> bool {
        size <= isize::MAX
    }

    open spec fn reliable(&self) -> bool {
        true
    }
}

impl FileStorage for InProcStorage {
    fn read(&self, offset: u64, buf: &mut [u8]) -> (r: StorageResult<()>)
        ensures
            final(buf)@ == window(self@, offset as int, old(buf)@.len()),
            r == if offset < self@.len() && offset + old(buf)@.len() <= self@.len() {
                Ok::<(), i32>(())
            } else {
                Err(SQLITE_IOERR_SHORT_READ)
            },
    {
        let file_len: usize = self.bytes.len();
        let len: usize = buf.len();
        if offset >= file_len as u64 {
            fill_zero(buf, 0, len);
            assert(buf@ =~= window(self@, offset as int, old(buf)@.len()));
            return Err(SQLITE_IOERR_SHORT_READ);
        }
        let from: usize = offset as usize;
        let avail: usize = file_len - from;
        if avail >= len {
            copy_range(buf, 0, self.bytes.as_slice(), from, len);
            assert(buf@ =~= window(self@, offset as int, old(buf)@.len()));
            Ok(())
        } else {
            copy_range(buf, 0, self.bytes.as_slice(), from, avail);
            fill_zero(buf, avail, len - avail);
            assert(buf@ =~= window(self@, offset as int, old(buf)@.len()));
            Err(SQLITE_IOERR_SHORT_READ)
        }
    }

    fn write(&mut self, offset: u64, buf: &[u8]) -> (r: StorageResult<()>)
        ensures
            r is Ok,
            final(self)@ == overwritten(old(self)@, offset as int, buf@),
    {
        let at: usize = offset as usize;
        let end: usize = at + buf.len();
        if end > self.bytes.len() {
            self.bytes.resize(end, 0);
        }
        let n: usize = buf.len();
        copy_range(self.bytes.as_mut_slice(), at, buf, 0, n);
        assert(self@ =~= overwritten(old(self)@, offset as int, buf@));
        Ok(())
    }

    fn truncate(&mut self, size: u64) -> (r: StorageResult<()>)
        ensures
            r is Ok,
            final(self)@ == resized(old(self)@, size as nat),
    {
        self.bytes.resize(size as usize, 0);
        assert(self@ =~= resized(old(self)@, size as nat));
        Ok(())
    }

    fn size(&self) -> (r: u64) {
        self.bytes.len() as u64
    }
}

/// A read gives back what was written there.
pub proof fn lemma_read_after_write(content: Seq<u8>, offset: int, data: Seq<u8>)
    requires
        0 <= offset,
    ensures
        window(overwritten(content, offset, data), offset, data.len()) == data,
{
    assert(window(overwritten(content, offset, data), offset, data.len()) =~= data);
}

/// A write changes no byte outside the range it is given.
pub proof fn lemma_write_elsewhere(
    content: Seq<u8>,
    offset: int,
    data: Seq<u8>,
    other: int,
    n: nat,
)
    requires
        0 <= offset,
        0 <= other,
        other + n <= offset || offset + data.len() <= other,
    ensures
        window(overwritten(content, offset, data), other, n) == window(content, other, n),
{
    assert(window(overwritten(content, offset, data), other, n) =~= window(content, other, n));
}

/// A file cut to `small` bytes and grown again reads as zeros from there on.
pub proof fn lemma_shrink_then_grow(content: Seq<u8>, small: nat, big: nat)
    requires
        small <= content.len(),
        small <= big,
    ensures
        resized(resized(content, small), big) == content.take(small as int)
            + crate::bytes::zeros((big - small) as nat),
{
    assert(resized(resized(content, small), big) =~= content.take(small as int)
        + crate::bytes::zeros((big - small) as nat));
}

} // verus!
