//! What a caller can rely on of the file system over a backend: what an answer of
//! the backend's comes to, and what opening and closing change.

use crate::vfs::opfs::{
    exists_by, read_code, size_code, sqlite_code, temp_name, unit_code, write_code, BackendSlot,
    OpfsBackend, OpfsErrorCode, OpfsModel, UnsupportedBackend,
};
use vstd::prelude::*;
use vstd::string::*;
use vstd::utf8::{decode_utf8_encode_utf8, encode_utf8, valid_utf8};

verus! {

/// Every failure of a backend has an engine's code of its own, and none is success.
pub proof fn lemma_failures_have_codes(e: OpfsErrorCode)
    ensures
        e is Io <==> sqlite_code(e) == 10,
        e is NotFound <==> sqlite_code(e) == 14,
        e is Full <==> sqlite_code(e) == 13,
        e is Invalid <==> sqlite_code(e) == 21,
{
}

/// Success is told exactly where the backend succeeded, and a failure by its code.
pub proof fn lemma_answers_are_passed_on(
    done: Result<(), OpfsErrorCode>,
    size: Result<u64, OpfsErrorCode>,
)
    ensures
        unit_code(done) == 0 <==> done is Ok,
        done is Err ==> unit_code(done) == sqlite_code(done->Err_0),
        size is Ok <==> size_code(size) is Ok,
        size is Ok && size->Ok_0 <= i64::MAX ==> size_code(size)->Ok_0 == size->Ok_0,
        size is Err ==> size_code(size) == Err::<i64, i32>(sqlite_code(size->Err_0)),
{
}

/// A write succeeds exactly if the backend wrote every byte.
pub proof fn lemma_writes_are_whole(reply: Result<u32, OpfsErrorCode>, len: nat)
    ensures
        write_code(reply, len) == 0 <==> reply is Ok && reply->Ok_0 == len,
        reply is Ok && reply->Ok_0 != len ==> write_code(reply, len) == 778,
        reply is Err ==> write_code(reply, len) == sqlite_code(reply->Err_0),
{
}

/// A read shows the bytes that the backend gave, byte for byte, and zeros behind
/// them; it succeeds exactly if the backend gave as many as were asked for. A read
/// that failed leaves the buffer alone.
pub proof fn lemma_reads_show_the_bytes(
    reply: Result<Vec<u8>, OpfsErrorCode>,
    before: Seq<u8>,
    after: Seq<u8>,
    rc: i32,
    i: int,
)
    requires
        read_code(reply, before, after, rc),
    ensures
        after.len() == before.len(),
        rc == 0 <==> reply is Ok && reply->Ok_0@.len() >= before.len(),
        reply is Ok && reply->Ok_0@.len() < before.len() ==> rc == 522,
        reply is Ok && 0 <= i < before.len() && i < reply->Ok_0@.len() ==> after[i]
            == reply->Ok_0@[i],
        reply is Ok && reply->Ok_0@.len() <= i < before.len() ==> after[i] == 0,
        reply is Err ==> after == before && rc == sqlite_code(reply->Err_0),
{
}

/// A file is there where the backend opened it, and is not where the backend did not
/// find it; where the backend failed otherwise, the file is there if it was seen.
pub proof fn lemma_when_a_file_is_there(reply: Result<u64, OpfsErrorCode>, seen: bool)
    ensures
        reply is Ok ==> exists_by(reply, seen),
        reply is Err && reply->Err_0 is NotFound ==> !exists_by(reply, seen),
        reply is Err && !(reply->Err_0 is NotFound) ==> exists_by(reply, seen) == seen,
{
}

/// A file goes when it is closed exactly if it has no path or was opened with the
/// delete-on-close bit; a file with a path has the name that its path spells.
pub proof fn lemma_which_files_go(m: OpfsModel, path: Option<Seq<u8>>, flags: i32)
    ensures
        path is None ==> m.target(path, flags).1 && m.target(path, flags).0 == temp_name(
            m.temp_counter,
        ),
        path is Some ==> (m.target(path, flags).1 <==> flags & 0x8 != 0),
        path is Some && valid_utf8(path->0) ==> encode_utf8(m.target(path, flags).0) == path->0,
        path is Some ==> m.named(path).temp_counter == m.temp_counter,
        path is None && m.temp_counter < u64::MAX ==> m.named(path).temp_counter == m.temp_counter
            + 1,
        m.named(path).seen == m.seen,
        m.named(path).handles == m.handles,
{
    if path is Some && valid_utf8(path->0) {
        decode_utf8_encode_utf8(path->0);
    }
}

/// Opening adds one handle, without a lock, and one name; closing takes that handle
/// away, and the name exactly where the file goes; a lock changes its own level alone.
pub proof fn lemma_opening_and_closing(
    m: OpfsModel,
    h: usize,
    handle: u64,
    name: Seq<char>,
    goes: bool,
    level: i32,
    g: usize,
    x: Seq<char>,
)
    ensures
        ({
            let o = m.opened(h, handle, name, goes);
            &&& o.handles.contains_key(h)
            &&& o.handles[h].handle == handle
            &&& o.handles[h].name == name
            &&& o.handles[h].delete_on_close == goes
            &&& o.handles[h].lock_level == 0
            &&& o.seen.contains(x) <==> m.seen.contains(x) || x == name
            &&& g != h ==> (o.handles.contains_key(g) <==> m.handles.contains_key(g))
                && o.handles[g] == m.handles[g]
            &&& o.temp_counter == m.temp_counter
        }),
        m.handles.contains_key(h) ==> {
            let c = m.closed(h);
            &&& !c.handles.contains_key(h)
            &&& g != h ==> (c.handles.contains_key(g) <==> m.handles.contains_key(g))
                && c.handles[g] == m.handles[g]
            &&& c.seen.contains(x) <==> m.seen.contains(x) && !(m.handles[h].delete_on_close && x
                == m.handles[h].name)
            &&& c.temp_counter == m.temp_counter
        },
        m.handles.contains_key(h) ==> {
            let l = m.locked(h, level);
            &&& l.handles.contains_key(h)
            &&& l.handles[h].lock_level == level
            &&& l.handles[h].handle == m.handles[h].handle
            &&& l.handles[h].name == m.handles[h].name
            &&& l.handles[h].delete_on_close == m.handles[h].delete_on_close
            &&& g != h ==> (l.handles.contains_key(g) <==> m.handles.contains_key(g))
                && l.handles[g] == m.handles[g]
            &&& l.seen == m.seen
            &&& l.temp_counter == m.temp_counter
        },
{
}

/// What is asked of a registered backend is what the file system was asked: the same
/// path, handle, place, number of bytes and data, and the same wish to create.
pub proof fn lemma_backends_are_asked<B: OpfsBackend>(
    b: B,
    path: Seq<char>,
    create: bool,
    handle: u64,
    place: u64,
    len: u32,
    data: Seq<u8>,
    opened: Result<u64, OpfsErrorCode>,
    got: Result<Vec<u8>, OpfsErrorCode>,
    put: Result<u32, OpfsErrorCode>,
    done: Result<(), OpfsErrorCode>,
)
    ensures
        ({
            let slot = BackendSlot::Registered(b);
            &&& slot.opens(path, create, opened) ==> exists|p: &str|
                p@ == path && #[trigger] call_ensures(B::open, (&b, p, create), opened)
            &&& slot.reads(handle, place, len, got) ==> call_ensures(
                B::read,
                (&b, handle, place, len),
                got,
            )
            &&& slot.writes(handle, place, data, put) ==> exists|d: &[u8]|
                d@ == data && #[trigger] call_ensures(B::write, (&b, handle, place, d), put)
            &&& slot.truncates(handle, place, done) ==> call_ensures(
                B::truncate,
                (&b, handle, place),
                done,
            )
            &&& slot.syncs(handle, done) ==> call_ensures(B::sync, (&b, handle), done)
            &&& slot.sizes(handle, opened) ==> call_ensures(B::size, (&b, handle), opened)
            &&& slot.closes(handle, done) ==> call_ensures(B::close, (&b, handle), done)
            &&& slot.deletes(path, done) ==> exists|p: &str|
                p@ == path && #[trigger] call_ensures(B::delete, (&b, p), done)
        }),
{
}

/// Without a backend everything is refused with the code for what is not found.
pub proof fn lemma_no_backend<B: OpfsBackend>(
    path: Seq<char>,
    create: bool,
    handle: u64,
    place: u64,
    len: u32,
    data: Seq<u8>,
    opened: Result<u64, OpfsErrorCode>,
    got: Result<Vec<u8>, OpfsErrorCode>,
    put: Result<u32, OpfsErrorCode>,
    done: Result<(), OpfsErrorCode>,
)
    ensures
        ({
            let slot = BackendSlot::<B>::Unsupported(UnsupportedBackend);
            &&& slot.opens(path, create, opened) ==> opened is Err && opened->Err_0 is NotFound
            &&& slot.reads(handle, place, len, got) ==> got is Err && got->Err_0 is NotFound
            &&& slot.writes(handle, place, data, put) ==> put is Err && put->Err_0 is NotFound
            &&& slot.truncates(handle, place, done) ==> done is Err && done->Err_0 is NotFound
            &&& slot.syncs(handle, done) ==> done is Err && done->Err_0 is NotFound
            &&& slot.sizes(handle, opened) ==> opened is Err && opened->Err_0 is NotFound
            &&& slot.closes(handle, done) ==> done is Err && done->Err_0 is NotFound
            &&& slot.deletes(path, done) ==> done is Err && done->Err_0 is NotFound
        }),
{
}

} // verus!
