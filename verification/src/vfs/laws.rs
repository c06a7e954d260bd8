//! What a caller can rely on over several calls of the in-memory file system: the
//! life of a file from its opening to its deletion, and the bytes it reads as.

use crate::text::{continues, lemma_starts_and_ends};
use crate::vfs::storage::{overwritten, resized, window, InProcStorage, StorageModel};
use crate::vfs::tvm::{has_flag, path_bytes, temp_name, VfsModel};
use vstd::prelude::*;
use vstd::string::*;
use vstd::utf8::{decode_utf8, decode_utf8_encode_utf8, encode_utf8, valid_utf8};

verus! {

/// The path starts with the prefix of the files that share the life of an
/// anonymous database.
pub open spec fn reserved(path: Seq<u8>) -> bool {
    continues(encode_utf8("/__tvm_mem_anon_"@), path)
}

/// A file goes when it is closed exactly if it has no path, was opened with the
/// delete-on-close bit or has the reserved prefix; no other flag plays a part. A
/// file with a path has the name that its path spells.
pub proof fn lemma_which_files_go_on_close<S: StorageModel>(
    m: VfsModel<S>,
    path: Option<Seq<u8>>,
    flags: i32,
)
    ensures
        path is None ==> m.target(path, flags).1,
        path is Some && valid_utf8(path->0) ==> {
            &&& m.target(path, flags).1 <==> flags & 0x8 != 0 || reserved(path->0)
            &&& encode_utf8(m.target(path, flags).0) == path->0
        },
{
    if path is Some && valid_utf8(path->0) {
        let b = path->0;
        decode_utf8_encode_utf8(b);
        lemma_starts_and_ends(b, encode_utf8("/__tvm_mem_anon_"@));
    }
}

/// A flag is set where any of its bits is.
pub proof fn lemma_flags(flags: i32, bit: i32, path: Option<&[u8]>)
    ensures
        has_flag(flags, bit) <==> flags & bit != 0,
        path_bytes(path) is Some <==> path is Some,
        path is Some ==> path_bytes(path)->0 == path->0@,
{
}

/// Files without a path get names that count up, and only they use a number up.
pub proof fn lemma_temporary_names<S: StorageModel>(m: VfsModel<S>, path: Option<Seq<u8>>, flags: i32)
    ensures
        path is None ==> m.target(path, flags).0 == temp_name(m.temp_counter),
        path is None && m.temp_counter < u64::MAX ==> m.named(path).temp_counter == m.temp_counter
            + 1,
        path is Some ==> m.named(path).temp_counter == m.temp_counter,
        m.named(path).files == m.files,
        m.named(path).storages == m.storages,
        m.named(path).handles == m.handles,
{
}

/// Opening adds one handle, without a lock, on the storage that the name stands
/// for, and changes nothing else.
pub proof fn lemma_opening<S: StorageModel>(
    m: VfsModel<S>,
    h: usize,
    name: Seq<char>,
    delete_on_close: bool,
)
    ensures
        m.opened(h, name, delete_on_close).files == m.files,
        m.opened(h, name, delete_on_close).storages == m.storages,
        m.opened(h, name, delete_on_close).temp_counter == m.temp_counter,
        m.opened(h, name, delete_on_close).handles.contains_key(h),
        m.opened(h, name, delete_on_close).handles[h].storage == m.files[name],
        m.opened(h, name, delete_on_close).handles[h].name == name,
        m.opened(h, name, delete_on_close).handles[h].delete_on_close == delete_on_close,
        m.opened(h, name, delete_on_close).handles[h].lock_level == 0,
        forall|g: usize|
            g != h ==> (#[trigger] m.opened(h, name, delete_on_close).handles.contains_key(g)
                <==> m.handles.contains_key(g)) && m.opened(h, name, delete_on_close).handles[g]
                == m.handles[g],
{
}

/// Creating adds one name on one storage, and changes nothing else.
pub proof fn lemma_creating<S: StorageModel>(m: VfsModel<S>, name: Seq<char>, id: usize, s: S)
    ensures
        m.created(name, id, s).handles == m.handles,
        m.created(name, id, s).temp_counter == m.temp_counter,
        m.created(name, id, s).files.contains_key(name),
        m.created(name, id, s).files[name] == id,
        m.created(name, id, s).storages.contains_key(id),
        m.created(name, id, s).storages[id] == s,
        forall|n: Seq<char>|
            n != name ==> (#[trigger] m.created(name, id, s).files.contains_key(n)
                <==> m.files.contains_key(n)) && m.created(name, id, s).files[n] == m.files[n],
        forall|k: usize|
            k != id ==> (#[trigger] m.created(name, id, s).storages.contains_key(k)
                <==> m.storages.contains_key(k)) && m.created(name, id, s).storages[k]
                == m.storages[k],
{
}

/// Writing to an open file or cutting it changes its storage alone.
pub proof fn lemma_storing<S: StorageModel>(m: VfsModel<S>, h: usize, s: S)
    requires
        m.handles.contains_key(h),
    ensures
        m.stored(h, s).files == m.files,
        m.stored(h, s).handles == m.handles,
        m.stored(h, s).temp_counter == m.temp_counter,
        m.stored(h, s).storage_of(h) == s,
        forall|g: usize| #[trigger]
            m.handles.contains_key(g) && m.handles[g].storage == m.handles[h].storage
                ==> m.stored(h, s).storage_of(g) == s,
        forall|k: usize|
            k != m.handles[h].storage ==> (#[trigger] m.stored(h, s).storages.contains_key(k)
                <==> m.storages.contains_key(k)) && m.stored(h, s).storages[k] == m.storages[k],
{
}

/// A lock changes the level of its handle alone.
pub proof fn lemma_locking<S: StorageModel>(m: VfsModel<S>, h: usize, level: i32)
    requires
        m.handles.contains_key(h),
    ensures
        m.locked(h, level).files == m.files,
        m.locked(h, level).storages == m.storages,
        m.locked(h, level).temp_counter == m.temp_counter,
        m.locked(h, level).handles.dom() == m.handles.dom(),
        m.locked(h, level).handles[h].lock_level == level,
        m.locked(h, level).handles[h].storage == m.handles[h].storage,
        m.locked(h, level).handles[h].name == m.handles[h].name,
        m.locked(h, level).handles[h].delete_on_close == m.handles[h].delete_on_close,
        forall|g: usize| g != h ==> #[trigger] m.locked(h, level).handles[g] == m.handles[g],
{
    assert(m.locked(h, level).handles.dom() =~= m.handles.dom());
}

/// What is swept away is what neither a name nor an open file stands on.
proof fn lemma_swept_keeps<S: StorageModel>(m: VfsModel<S>)
    ensures
        m.swept().files == m.files,
        m.swept().handles == m.handles,
        m.swept().temp_counter == m.temp_counter,
        forall|n: Seq<char>| #[trigger]
            m.files.contains_key(n) && m.storages.contains_key(m.files[n])
                ==> m.swept().storages.contains_key(m.files[n]) && m.swept().storages[m.files[n]]
                == m.storages[m.files[n]],
        forall|g: usize| #[trigger]
            m.handles.contains_key(g) && m.storages.contains_key(m.handles[g].storage)
                ==> m.swept().storages.contains_key(m.handles[g].storage)
                && m.swept().storages[m.handles[g].storage] == m.storages[m.handles[g].storage],
{
    assert forall|n: Seq<char>| #[trigger]
        m.files.contains_key(n) && m.storages.contains_key(m.files[n]) implies
        m.swept().storages.contains_key(m.files[n]) && m.swept().storages[m.files[n]] == m.storages[m.files[n]] by {
        assert(m.referenced(m.files[n]));
    }
    assert forall|g: usize| #[trigger]
        m.handles.contains_key(g) && m.storages.contains_key(m.handles[g].storage) implies
        m.swept().storages.contains_key(m.handles[g].storage)
        && m.swept().storages[m.handles[g].storage] == m.storages[m.handles[g].storage] by {
        assert(m.referenced(m.handles[g].storage));
    }
}

/// Deleting a name takes that name away and leaves every other name and every open
/// file with its bytes.
pub proof fn lemma_deleting<S: StorageModel>(m: VfsModel<S>, name: Seq<char>)
    requires
        m.wf(),
    ensures
        !m.deleted(name).files.contains_key(name),
        m.deleted(name).handles == m.handles,
        m.deleted(name).temp_counter == m.temp_counter,
        forall|n: Seq<char>| #[trigger]
            m.files.contains_key(n) && n != name ==> {
                &&& m.deleted(name).files.contains_key(n)
                &&& m.deleted(name).files[n] == m.files[n]
                &&& m.deleted(name).storages.contains_key(m.files[n])
                &&& m.deleted(name).storages[m.files[n]] == m.storages[m.files[n]]
            },
        forall|n: Seq<char>|
            !m.files.contains_key(n) ==> !(#[trigger] m.deleted(name).files.contains_key(n)),
        forall|g: usize| #[trigger]
            m.handles.contains_key(g) ==> m.deleted(name).storages.contains_key(
                m.handles[g].storage,
            ) && m.deleted(name).storage_of(g) == m.storage_of(g),
{
    let w = VfsModel { files: m.files.remove(name), ..m };
    lemma_swept_keeps(w);
    assert forall|n: Seq<char>| #[trigger] m.files.contains_key(n) && n != name implies {
        &&& m.deleted(name).files.contains_key(n)
        &&& m.deleted(name).files[n] == m.files[n]
        &&& m.deleted(name).storages.contains_key(m.files[n])
        &&& m.deleted(name).storages[m.files[n]] == m.storages[m.files[n]]
    } by {
        assert(m.referenced(m.files[n]));
        assert(m.storages.contains_key(m.files[n]));
        assert(w.files.contains_key(n));
    }
    assert forall|g: usize| #[trigger] m.handles.contains_key(g) implies m.deleted(
        name,
    ).storages.contains_key(m.handles[g].storage) && m.deleted(name).storage_of(g) == m.storage_of(
        g,
    ) by {
        assert(m.referenced(m.handles[g].storage));
        assert(m.storages.contains_key(m.handles[g].storage));
        assert(w.handles.contains_key(g));
    }
}

/// Closing a handle takes that handle away. Every other open file keeps its bytes,
/// and so does every name, but for the name of a file that goes on close.
pub proof fn lemma_closing<S: StorageModel>(m: VfsModel<S>, h: usize)
    requires
        m.wf(),
        m.handles.contains_key(h),
    ensures
        !m.closed(h).handles.contains_key(h),
        m.closed(h).temp_counter == m.temp_counter,
        m.handles[h].delete_on_close ==> !m.closed(h).files.contains_key(m.handles[h].name),
        forall|n: Seq<char>| #[trigger]
            m.files.contains_key(n) && (n != m.handles[h].name || !m.handles[h].delete_on_close)
                ==> {
                &&& m.closed(h).files.contains_key(n)
                &&& m.closed(h).files[n] == m.files[n]
                &&& m.closed(h).storages.contains_key(m.files[n])
                &&& m.closed(h).storages[m.files[n]] == m.storages[m.files[n]]
            },
        forall|n: Seq<char>|
            !m.files.contains_key(n) ==> !(#[trigger] m.closed(h).files.contains_key(n)),
        forall|g: usize| #[trigger]
            m.handles.contains_key(g) && g != h ==> {
                &&& m.closed(h).handles.contains_key(g)
                &&& m.closed(h).handles[g] == m.handles[g]
                &&& m.closed(h).storages.contains_key(m.handles[g].storage)
                &&& m.closed(h).storage_of(g) == m.storage_of(g)
            },
        forall|g: usize|
            !m.handles.contains_key(g) ==> !(#[trigger] m.closed(h).handles.contains_key(g)),
{
    let f = m.handles[h];
    let w = VfsModel { handles: m.handles.remove(h), ..m };
    let v = w.swept();
    lemma_swept_keeps(w);
    let u = VfsModel { files: v.files.remove(f.name), ..v };
    lemma_swept_keeps(u);
    assert forall|n: Seq<char>| #[trigger]
        m.files.contains_key(n) && (n != f.name || !f.delete_on_close) implies {
        &&& m.closed(h).files.contains_key(n)
        &&& m.closed(h).files[n] == m.files[n]
        &&& m.closed(h).storages.contains_key(m.files[n])
        &&& m.closed(h).storages[m.files[n]] == m.storages[m.files[n]]
    } by {
        assert(m.referenced(m.files[n]));
        assert(m.storages.contains_key(m.files[n]));
        assert(w.files.contains_key(n));
        assert(v.files.contains_key(n));
        if n != f.name {
            assert(u.files.contains_key(n));
        }
    }
    assert forall|g: usize| #[trigger] m.handles.contains_key(g) && g != h implies {
        &&& m.closed(h).handles.contains_key(g)
        &&& m.closed(h).handles[g] == m.handles[g]
        &&& m.closed(h).storages.contains_key(m.handles[g].storage)
        &&& m.closed(h).storage_of(g) == m.storage_of(g)
    } by {
        assert(m.referenced(m.handles[g].storage));
        assert(m.storages.contains_key(m.handles[g].storage));
        assert(w.handles.contains_key(g));
        assert(v.handles.contains_key(g));
        assert(u.handles.contains_key(g));
    }
}

/// A named file outlives its handles: whatever its flags are but for the
/// delete-on-close bit, opening the file at a path without the reserved prefix,
/// leaving `s` in it and closing it leaves the name on the same storage with `s` in
/// it, and every other file as it was.
pub proof fn lemma_named_file_lives<S: StorageModel>(
    m: VfsModel<S>,
    path: Seq<u8>,
    flags: i32,
    h: usize,
    s: S,
)
    requires
        m.wf(),
        valid_utf8(path),
        !reserved(path),
        flags & 0x8 == 0,
        m.files.contains_key(decode_utf8(path)),
        !m.handles.contains_key(h),
        s.inv(),
    ensures
        ({
            let (name, goes) = m.target(Some(path), flags);
            let after = m.named(Some(path)).opened(h, name, goes).stored(h, s).closed(h);
            &&& after.files.contains_key(decode_utf8(path))
            &&& after.files[decode_utf8(path)] == m.files[decode_utf8(path)]
            &&& after.storages[m.files[decode_utf8(path)]] == s
            &&& !after.handles.contains_key(h)
            &&& forall|n: Seq<char>| #[trigger]
                m.files.contains_key(n) && n != decode_utf8(path) ==> after.files.contains_key(n)
                    && after.files[n] == m.files[n] && after.storages[m.files[n]]
                    == m.storages[m.files[n]]
        }),
{
    let name = decode_utf8(path);
    let goes = m.target(Some(path), flags).1;
    lemma_which_files_go_on_close(m, Some(path), flags);
    assert(!goes);
    let o = m.named(Some(path)).opened(h, name, false);
    lemma_opened_wf(m.named(Some(path)), m, h, name, false);
    let w = o.stored(h, s);
    lemma_stored_wf(o, h, s);
    lemma_closing(w, h);
    assert forall|n: Seq<char>| #[trigger]
        m.files.contains_key(n) && n != name implies w.closed(h).files.contains_key(n)
        && w.closed(h).files[n] == m.files[n] && w.closed(h).storages[m.files[n]]
        == m.storages[m.files[n]] by {
        assert(w.files.contains_key(n));
        assert(m.files[n] != m.files[name]);
    }
    assert(w.files.contains_key(name));
}

/// Everything that a file with a path is created with is found again under its
/// name, and a file that goes on close leaves neither name nor handle.
pub proof fn lemma_created_file_lives<S: StorageModel>(
    m: VfsModel<S>,
    path: Option<Seq<u8>>,
    flags: i32,
    h: usize,
    id: usize,
    s: S,
)
    requires
        m.wf(),
        path is Some ==> valid_utf8(path->0),
        !m.files.contains_key(m.target(path, flags).0),
        !m.handles.contains_key(h),
        !m.storages.contains_key(id),
        s.inv(),
    ensures
        ({
            let (name, goes) = m.target(path, flags);
            let after = m.named(path).created(name, id, s).opened(h, name, goes).closed(h);
            &&& !after.handles.contains_key(h)
            &&& if path is None || flags & 0x8 != 0 || reserved(path->0) {
                !after.files.contains_key(name)
            } else {
                &&& after.files.contains_key(decode_utf8(path->0))
                &&& after.storages[after.files[decode_utf8(path->0)]] == s
            }
        }),
{
    let (name, goes) = m.target(path, flags);
    lemma_which_files_go_on_close(m, path, flags);
    let n = m.named(path);
    lemma_named_wf(m, path);
    crate::vfs::tvm::lemma_created_refs(n, name, id, s);
    let c = n.created(name, id, s);
    crate::vfs::tvm::lemma_opened_refs(c, h, name, goes);
    let o = c.opened(h, name, goes);
    assert(o.files.contains_key(name));
    lemma_closing(o, h);
}

proof fn lemma_named_wf<S: StorageModel>(m: VfsModel<S>, path: Option<Seq<u8>>)
    requires
        m.wf(),
    ensures
        m.named(path).wf(),
{
    crate::vfs::tvm::lemma_same_refs(m, m.named(path));
}

proof fn lemma_opened_wf<S: StorageModel>(
    n: VfsModel<S>,
    m: VfsModel<S>,
    h: usize,
    name: Seq<char>,
    goes: bool,
)
    requires
        m.wf(),
        n.files == m.files,
        n.storages == m.storages,
        n.handles == m.handles,
        m.files.contains_key(name),
        !m.handles.contains_key(h),
    ensures
        n.opened(h, name, goes).wf(),
{
    crate::vfs::tvm::lemma_same_refs(m, n);
    crate::vfs::tvm::lemma_opened_refs(n, h, name, goes);
}

proof fn lemma_stored_wf<S: StorageModel>(m: VfsModel<S>, h: usize, s: S)
    requires
        m.wf(),
        m.handles.contains_key(h),
        s.inv(),
    ensures
        m.stored(h, s).wf(),
{
    let n = m.stored(h, s);
    crate::vfs::tvm::lemma_same_refs(m, n);
    assert(m.referenced(m.handles[h].storage));
    assert(m.storages.contains_key(m.handles[h].storage));
    assert forall|k: usize| #[trigger] n.storages.contains_key(k) <==> n.referenced(k) by {
        assert(m.storages.contains_key(k) <==> m.referenced(k));
    }
    assert forall|k: usize| #[trigger] n.storages.contains_key(k) implies n.storages[k].inv() by {
        assert(m.storages.contains_key(k));
    }
}

/// Dropping all files leaves no name, and every open file with its bytes.
pub proof fn lemma_clearing<S: StorageModel>(m: VfsModel<S>)
    requires
        m.wf(),
    ensures
        forall|n: Seq<char>| !(#[trigger] m.cleared().files.contains_key(n)),
        m.cleared().handles == m.handles,
        m.cleared().temp_counter == 0,
        forall|g: usize| #[trigger]
            m.handles.contains_key(g) ==> m.cleared().storages.contains_key(m.handles[g].storage)
                && m.cleared().storage_of(g) == m.storage_of(g),
{
    let w = VfsModel { files: Map::<Seq<char>, usize>::empty(), temp_counter: 0, ..m };
    lemma_swept_keeps(w);
    assert forall|g: usize| #[trigger] m.handles.contains_key(g) implies
        m.cleared().storages.contains_key(m.handles[g].storage) && m.cleared().storage_of(g) == m.storage_of(g) by {
        assert(m.referenced(m.handles[g].storage));
        assert(m.storages.contains_key(m.handles[g].storage));
        assert(w.handles.contains_key(g));
    }
}

/// Byte for byte: what a read shows is the file's byte at that place, and zero past
/// its end.
pub proof fn lemma_read_bytes(content: Seq<u8>, offset: int, n: nat, i: int)
    requires
        0 <= offset,
        0 <= i < n,
    ensures
        window(content, offset, n).len() == n,
        offset + i < content.len() ==> window(content, offset, n)[i] == content[offset + i],
        offset + i >= content.len() ==> window(content, offset, n)[i] == 0,
{
}

/// A write makes a file as long as it has to be and no longer; each of its bytes is
/// the one that was written there, else the one that was there, else zero.
pub proof fn lemma_written_bytes(content: Seq<u8>, offset: int, data: Seq<u8>, i: int)
    requires
        0 <= offset,
    ensures
        overwritten(content, offset, data).len() >= content.len(),
        overwritten(content, offset, data).len() >= offset + data.len(),
        overwritten(content, offset, data).len() == content.len() || overwritten(
            content,
            offset,
            data,
        ).len() == offset + data.len(),
        offset <= i < offset + data.len() ==> overwritten(content, offset, data)[i] == data[i
            - offset],
        0 <= i < content.len() && !(offset <= i < offset + data.len()) ==> overwritten(
            content,
            offset,
            data,
        )[i] == content[i],
        content.len() <= i < offset ==> overwritten(content, offset, data)[i] == 0,
{
}

/// A file that is cut or grown has the size that was asked for; the bytes that it
/// had stay, and new ones are zeros.
pub proof fn lemma_resized_bytes(content: Seq<u8>, size: nat, i: int)
    requires
        0 <= i < size,
    ensures
        resized(content, size).len() == size,
        i < content.len() ==> resized(content, size)[i] == content[i],
        i >= content.len() ==> resized(content, size)[i] == 0,
{
}

/// A file in memory can have any size that memory can have, and no operation on it
/// fails.
pub proof fn lemma_in_memory_files_are_reliable(f: InProcStorage, size: int)
    ensures
        f.inv(),
        f.reliable(),
        f.content() == f@,
        f.fits(size) <==> size <= isize::MAX,
{
}

/// Temporary files are called by their number.
pub proof fn lemma_temporary_name(n: u64)
    ensures
        temp_name(n) == "__tvm_tmp_"@ + crate::text::decimal(n as nat),
        crate::vfs::opfs::temp_name(n) == "/__opfs_tmp_"@ + crate::text::decimal(n as nat),
{
}

/// The bytes in use are the sizes of the files, summed: one more file adds its size.
pub proof fn lemma_sizes_add_up<S: StorageModel>(
    m: VfsModel<S>,
    order: Seq<Seq<char>>,
    name: Seq<char>,
)
    ensures
        m.sizes(Seq::empty()) == 0,
        m.sizes(order.push(name)) == m.sizes(order) + m.storages[m.files[name]].content().len(),
{
    assert(order.push(name).drop_last() =~= order);
}

} // verus!
