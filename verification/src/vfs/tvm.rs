//! The in-memory file system: a table of names, the storages behind them and
//! the open files.
//!
//! Opening the same path twice gives two handles on one storage. A storage
//! lives as long as the table names it or a handle is open on it. Files without
//! a name get a synthetic one and are deleted when they are closed, and so are
//! files that were opened for deletion and those under a reserved prefix.

use crate::bytes::{copy_range, splice};
use crate::codes::{
    SQLITE_CANTOPEN, SQLITE_IOCAP_ATOMIC, SQLITE_IOCAP_SAFE_APPEND, SQLITE_IOCAP_SEQUENTIAL,
    SQLITE_IOERR, SQLITE_IOERR_SHORT_READ, SQLITE_LOCK_NONE, SQLITE_NOTFOUND, SQLITE_OK,
    SQLITE_OPEN_CREATE,
    SQLITE_OPEN_DELETEONCLOSE,
};
use crate::install::{DefaultGate, InstallError, Registered};
use crate::tables::NameTable;
use crate::text::{bytes_start_with, decimal, lemma_decimal_injective, push_decimal, starts_with, utf8_text};
use crate::vfs::laws::{lemma_which_files_go_on_close, reserved};
use crate::vfs::storage::{overwritten, resized, window, FileStorage, StorageModel};
use vstd::prelude::*;
use vstd::string::*;
use vstd::utf8::{decode_utf8, encode_utf8, valid_utf8};

verus! {

/// The longest path name the engine has to make room for.
pub const MAX_PATHNAME: i32 = 256;

/// An open file.
pub struct OpenFile {
    storage: usize,
    name: String,
    delete_on_close: bool,
    lock_level: i32,
}

/// An open file, as the model sees it.
pub struct HandleModel {
    pub storage: usize,
    pub name: Seq<char>,
    pub delete_on_close: bool,
    pub lock_level: i32,
}

/// The model of the file system: the storage that each name stands for, the
/// storages, the open files, and the number of the next synthetic name.
#[verifier::ext_equal]
pub struct VfsModel<S> {
    pub files: Map<Seq<char>, usize>,
    pub storages: Map<usize, S>,
    pub handles: Map<usize, HandleModel>,
    pub temp_counter: u64,
}

/// The synthetic name with number `n`.
pub open spec fn temp_name(n: u64) -> Seq<char> {
    "__tvm_tmp_"@ + decimal(n as nat)
}

/// The name lies under the prefix whose files share the life of an anonymous
/// database.
pub open spec fn anonymous(name: Seq<char>) -> bool {
    starts_with(encode_utf8(name), encode_utf8("/__tvm_mem_anon_"@))
}

/// The bytes of a path, where there is one.
pub open spec fn path_bytes(path: Option<&[u8]>) -> Option<Seq<u8>> {
    match path {
        Some(p) => Some(p@),
        None => None,
    }
}

/// `flags` holds the bit `bit`.
pub open spec fn has_flag(flags: i32, bit: i32) -> bool {
    flags & bit != 0
}

/// Different names stand for different storages.
pub open spec fn distinct(files: Map<Seq<char>, usize>) -> bool {
    forall|a: Seq<char>, b: Seq<char>| #[trigger]
        files.contains_key(a) && #[trigger] files.contains_key(b) && a != b ==> files[a] != files[b]
}

/// `order` lists each item of `names` once.
pub open spec fn lists(order: Seq<Seq<char>>, names: Set<Seq<char>>) -> bool {
    order.no_duplicates() && order.to_set() == names
}

impl<S: StorageModel> VfsModel<S> {
    /// A name or an open file refers to the storage `id`.
    pub open spec fn referenced(self, id: usize) -> bool {
        ||| exists|name: Seq<char>| #[trigger]
            self.files.contains_key(name) && self.files[name] == id
        ||| exists|h: usize| #[trigger]
            self.handles.contains_key(h) && self.handles[h].storage == id
    }

    /// Open files on one storage were opened under one name, which is the name
    /// that the storage has, if it still has one.
    pub open spec fn apart(self) -> bool {
        &&& forall|g: usize, h: usize| #[trigger]
            self.handles.contains_key(g) && #[trigger] self.handles.contains_key(h)
                && self.handles[g].storage == self.handles[h].storage ==> self.handles[g].name
                == self.handles[h].name
        &&& forall|h: usize, name: Seq<char>| #[trigger]
            self.handles.contains_key(h) && #[trigger] self.files.contains_key(name)
                && self.files[name] == self.handles[h].storage ==> self.handles[h].name == name
    }

    /// Names and open files refer to storages, different names to different
    /// ones, and no storage is left over.
    pub open spec fn wf(self) -> bool {
        &&& forall|id: usize| #[trigger] self.storages.contains_key(id) <==> self.referenced(id)
        &&& forall|id: usize| #[trigger] self.storages.contains_key(id) ==> self.storages[id].inv()
        &&& distinct(self.files)
        &&& self.apart()
    }

    /// The file opened for `path`: its name and whether it goes when it is
    /// closed. Without a path it is a temporary file.
    pub open spec fn target(self, path: Option<Seq<u8>>, flags: i32) -> (Seq<char>, bool) {
        match path {
            None => (temp_name(self.temp_counter), true),
            Some(b) => (
                decode_utf8(b),
                has_flag(flags, SQLITE_OPEN_DELETEONCLOSE) || anonymous(decode_utf8(b)),
            ),
        }
    }

    /// A synthetic name was used up, where there is no path.
    pub open spec fn named(self, path: Option<Seq<u8>>) -> VfsModel<S> {
        VfsModel {
            temp_counter: if path is None {
                self.temp_counter.wrapping_add(1)
            } else {
                self.temp_counter
            },
            ..self
        }
    }

    /// The file `name` exists, with the storage `s` under the number `id`.
    pub open spec fn created(self, name: Seq<char>, id: usize, s: S) -> VfsModel<S> {
        VfsModel {
            files: self.files.insert(name, id),
            storages: self.storages.insert(id, s),
            ..self
        }
    }

    /// The handle `h` is open on the file `name`, without a lock.
    pub open spec fn opened(self, h: usize, name: Seq<char>, delete_on_close: bool) -> VfsModel<S> {
        VfsModel {
            handles: self.handles.insert(
                h,
                HandleModel {
                    storage: self.files[name],
                    name,
                    delete_on_close,
                    lock_level: SQLITE_LOCK_NONE,
                },
            ),
            ..self
        }
    }

    /// The storages that nothing refers to any more are gone.
    pub open spec fn swept(self) -> VfsModel<S> {
        VfsModel {
            storages: self.storages.restrict(
                self.storages.dom().filter(|id: usize| self.referenced(id)),
            ),
            ..self
        }
    }

    /// The file `name` is deleted; open files keep what they have.
    pub open spec fn deleted(self, name: Seq<char>) -> VfsModel<S> {
        VfsModel { files: self.files.remove(name), ..self }.swept()
    }

    /// The handle `h` is closed.
    pub open spec fn closed(self, h: usize) -> VfsModel<S> {
        let f = self.handles[h];
        if f.delete_on_close {
            self.without_handle(h).deleted(f.name)
        } else {
            self.without_handle(h)
        }
    }

    /// Every file is gone; open files keep what they have.
    pub open spec fn cleared(self) -> VfsModel<S> {
        VfsModel { files: Map::<Seq<char>, usize>::empty(), temp_counter: 0, ..self }.swept()
    }

    /// The handle `h` is not open any more.
    pub open spec fn without_handle(self, h: usize) -> VfsModel<S> {
        VfsModel { handles: self.handles.remove(h), ..self }.swept()
    }

    /// The lock level of the handle `h` is `level`.
    pub open spec fn locked(self, h: usize, level: i32) -> VfsModel<S> {
        VfsModel {
            handles: self.handles.insert(
                h,
                HandleModel { lock_level: level, ..self.handles[h] },
            ),
            ..self
        }
    }

    /// Only the storage of the handle `h` may differ from before.
    pub open spec fn stored(self, h: usize, s: S) -> VfsModel<S> {
        VfsModel { storages: self.storages.insert(self.handles[h].storage, s), ..self }
    }

    /// The storage that the handle `h` is open on.
    pub open spec fn storage_of(self, h: usize) -> S {
        self.storages[self.handles[h].storage]
    }

    /// The size of the file `name`.
    pub open spec fn size_of(self, name: Seq<char>) -> nat {
        self.storages[self.files[name]].content().len()
    }

    /// The sizes of the files in `order`, summed.
    pub open spec fn sizes(self, order: Seq<Seq<char>>) -> nat
        decreases order.len(),
    {
        if order.len() == 0 {
            0
        } else {
            self.sizes(order.drop_last()) + self.size_of(order.last())
        }
    }

    /// The sizes of all files, summed.
    pub open spec fn total_size(self) -> nat {
        self.sizes(choose|order: Seq<Seq<char>>| lists(order, self.files.dom()))
    }
}

/// Taking one name out of the order takes its size out of the sum.
proof fn lemma_sizes_remove<S: StorageModel>(m: VfsModel<S>, order: Seq<Seq<char>>, i: int)
    requires
        0 <= i < order.len(),
    ensures
        m.sizes(order) == m.sizes(order.remove(i)) + m.size_of(order[i]),
    decreases order.len(),
{
    if i < order.len() - 1 {
        lemma_sizes_remove(m, order.drop_last(), i);
        assert(order.remove(i).drop_last() =~= order.drop_last().remove(i));
        assert(order.remove(i).last() == order.last());
    } else {
        assert(order.remove(i) =~= order.drop_last());
    }
}

/// The sum of the sizes does not depend on the order.
pub proof fn lemma_sizes_any_order<S: StorageModel>(
    m: VfsModel<S>,
    a: Seq<Seq<char>>,
    b: Seq<Seq<char>>,
)
    requires
        a.no_duplicates(),
        b.no_duplicates(),
        a.to_set() == b.to_set(),
    ensures
        m.sizes(a) == m.sizes(b),
    decreases a.len(),
{
    a.unique_seq_to_set();
    b.unique_seq_to_set();
    if a.len() > 0 {
        let x = a.last();
        assert(a.to_set().contains(x));
        assert(b.to_set().contains(x));
        let j = choose|j: int| 0 <= j < b.len() && b[j] == x;
        let a1 = a.drop_last();
        let b1 = b.remove(j);
        assert forall|y: Seq<char>| a1.to_set().contains(y) <==> b1.to_set().contains(y) by {
            if a1.to_set().contains(y) {
                let i = choose|i: int| 0 <= i < a1.len() && a1[i] == y;
                assert(a[i] == y);
                assert(a.to_set().contains(y));
                assert(b.to_set().contains(y));
                let k = choose|k: int| 0 <= k < b.len() && b[k] == y;
                assert(b1[if k < j {
                    k
                } else {
                    k - 1
                }] == y);
            }
            if b1.to_set().contains(y) {
                let i = choose|i: int| 0 <= i < b1.len() && b1[i] == y;
                assert(b[if i < j {
                    i
                } else {
                    i + 1
                }] == y);
                assert(b.to_set().contains(y));
                assert(a.to_set().contains(y));
                let k = choose|k: int| 0 <= k < a.len() && a[k] == y;
                assert(a1[k] == y);
            }
        }
        assert(a1.to_set() =~= b1.to_set());
        assert(b1.no_duplicates());
        lemma_sizes_any_order(m, a1, b1);
        lemma_sizes_remove(m, b, j);
    } else {
        assert(b.len() == 0);
    }
}

/// In a model without left-over storages nothing is swept.
proof fn lemma_swept_same<S: StorageModel>(m: VfsModel<S>)
    requires
        m.wf(),
    ensures
        m.swept() == m,
{
    assert(m.swept().storages =~= m.storages);
}

/// What is referred to depends on the names and the open files alone.
pub(crate) proof fn lemma_same_refs<S: StorageModel>(m: VfsModel<S>, n: VfsModel<S>)
    requires
        m.files == n.files,
        m.handles == n.handles,
    ensures
        forall|k: usize| #[trigger] n.referenced(k) == m.referenced(k),
{
    assert forall|k: usize| #[trigger] n.referenced(k) == m.referenced(k) by {
        if m.referenced(k) {
            if exists|g: usize| #[trigger] m.handles.contains_key(g) && m.handles[g].storage == k {
                let g = choose|g: usize| #[trigger]
                    m.handles.contains_key(g) && m.handles[g].storage == k;
                assert(n.handles.contains_key(g));
            } else {
                let x = choose|x: Seq<char>| #[trigger] m.files.contains_key(x) && m.files[x] == k;
                assert(n.files.contains_key(x));
            }
        }
        if n.referenced(k) {
            if exists|g: usize| #[trigger] n.handles.contains_key(g) && n.handles[g].storage == k {
                let g = choose|g: usize| #[trigger]
                    n.handles.contains_key(g) && n.handles[g].storage == k;
                assert(m.handles.contains_key(g));
            } else {
                let x = choose|x: Seq<char>| #[trigger] n.files.contains_key(x) && n.files[x] == k;
                assert(m.files.contains_key(x));
            }
        }
    }
}

/// What is referred to once a file was created.
pub(crate) proof fn lemma_created_refs<S: StorageModel>(m: VfsModel<S>, name: Seq<char>, id: usize, s: S)
    requires
        m.wf(),
        !m.storages.contains_key(id),
        !m.files.contains_key(name),
        s.inv(),
    ensures
        m.created(name, id, s).wf(),
{
    let n = m.created(name, id, s);
    assert forall|k: usize| #[trigger] n.storages.contains_key(k) <==> n.referenced(k) by {
        assert(n.files.contains_key(name));
        if m.storages.contains_key(k) {
            assert(m.referenced(k));
            if exists|x: Seq<char>| #[trigger] m.files.contains_key(x) && m.files[x] == k {
                let x = choose|x: Seq<char>| #[trigger] m.files.contains_key(x) && m.files[x] == k;
                assert(n.files.contains_key(x));
            } else {
                let g = choose|g: usize| #[trigger]
                    m.handles.contains_key(g) && m.handles[g].storage == k;
                assert(n.handles.contains_key(g));
            }
        }
        if n.referenced(k) && k != id {
            if exists|x: Seq<char>| #[trigger] n.files.contains_key(x) && n.files[x] == k {
                let x = choose|x: Seq<char>| #[trigger] n.files.contains_key(x) && n.files[x] == k;
                assert(m.files.contains_key(x));
            } else {
                let g = choose|g: usize| #[trigger]
                    n.handles.contains_key(g) && n.handles[g].storage == k;
                assert(m.handles.contains_key(g));
            }
            assert(m.referenced(k));
            assert(m.storages.contains_key(k));
        }
    }
    assert forall|a: Seq<char>, b: Seq<char>| #[trigger]
        n.files.contains_key(a) && #[trigger] n.files.contains_key(b) && a != b implies n.files[a]
        != n.files[b] by {
        if a != name && b != name {
            assert(m.files.contains_key(a) && m.files.contains_key(b));
        } else if a != name {
            assert(m.files.contains_key(a));
            assert(m.referenced(m.files[a]));
            assert(m.storages.contains_key(m.files[a]));
        } else if b != name {
            assert(m.files.contains_key(b));
            assert(m.referenced(m.files[b]));
            assert(m.storages.contains_key(m.files[b]));
        }
    }
}

/// What is referred to once a handle was opened.
pub(crate) proof fn lemma_opened_refs<S: StorageModel>(
    m: VfsModel<S>,
    h: usize,
    name: Seq<char>,
    delete_on_close: bool,
)
    requires
        m.wf(),
        m.files.contains_key(name),
        !m.handles.contains_key(h),
    ensures
        m.opened(h, name, delete_on_close).wf(),
{
    let n = m.opened(h, name, delete_on_close);
    assert forall|k: usize| n.referenced(k) == m.referenced(k) by {
        if m.referenced(k) {
            if exists|g: usize| #[trigger] m.handles.contains_key(g) && m.handles[g].storage == k {
                let g = choose|g: usize| #[trigger]
                    m.handles.contains_key(g) && m.handles[g].storage == k;
                assert(n.handles.contains_key(g));
            } else {
                let x = choose|x: Seq<char>| #[trigger] m.files.contains_key(x) && m.files[x] == k;
                assert(n.files.contains_key(x));
            }
        }
        if n.referenced(k) {
            if exists|x: Seq<char>| #[trigger] n.files.contains_key(x) && n.files[x] == k {
                let x = choose|x: Seq<char>| #[trigger] n.files.contains_key(x) && n.files[x] == k;
                assert(m.files.contains_key(x));
            } else {
                let g = choose|g: usize| #[trigger]
                    n.handles.contains_key(g) && n.handles[g].storage == k;
                if g != h {
                    assert(m.handles.contains_key(g));
                } else {
                    assert(m.files.contains_key(name));
                }
            }
        }
    }
}

/// What is referred to does not depend on lock levels.
proof fn lemma_locked_refs<S: StorageModel>(m: VfsModel<S>, h: usize, level: i32)
    requires
        m.wf(),
        m.handles.contains_key(h),
    ensures
        m.locked(h, level).wf(),
{
    let n = m.locked(h, level);
    assert forall|k: usize| n.referenced(k) == m.referenced(k) by {
        if m.referenced(k) {
            if exists|g: usize| #[trigger] m.handles.contains_key(g) && m.handles[g].storage == k {
                let g = choose|g: usize| #[trigger]
                    m.handles.contains_key(g) && m.handles[g].storage == k;
                assert(n.handles.contains_key(g));
            } else {
                let x = choose|x: Seq<char>| #[trigger] m.files.contains_key(x) && m.files[x] == k;
                assert(n.files.contains_key(x));
            }
        }
        if n.referenced(k) {
            if exists|g: usize| #[trigger] n.handles.contains_key(g) && n.handles[g].storage == k {
                let g = choose|g: usize| #[trigger]
                    n.handles.contains_key(g) && n.handles[g].storage == k;
                assert(m.handles.contains_key(g));
            } else {
                let x = choose|x: Seq<char>| #[trigger] n.files.contains_key(x) && n.files[x] == k;
                assert(m.files.contains_key(x));
            }
        }
    }
}

/// Changing a storage in place changes nothing else.
proof fn lemma_stored<S: StorageModel>(m: VfsModel<S>, n: VfsModel<S>, h: usize)
    requires
        m.wf(),
        m.handles.contains_key(h),
        n == m.stored(h, n.storage_of(h)),
        n.storage_of(h).inv(),
    ensures
        n.wf(),
{
    let id = m.handles[h].storage;
    assert(m.referenced(id));
    assert(m.storages.contains_key(id));
    lemma_same_refs(m, n);
}

/// The file system.
pub struct TvmVfs<S: FileStorage> {
    files: NameTable<usize>,
    storages: Vec<Option<S>>,
    handles: Vec<Option<OpenFile>>,
    temp_counter: u64,
}

impl<S: FileStorage> View for TvmVfs<S> {
    type V = VfsModel<S>;

    closed spec fn view(&self) -> VfsModel<S> {
        VfsModel {
            files: self.files@,
            storages: Map::new(
                |id: usize| id < self.storages@.len() && self.storages@[id as int] is Some,
                |id: usize| self.storages@[id as int]->0,
            ),
            handles: Map::new(
                |h: usize| h < self.handles@.len() && self.handles@[h as int] is Some,
                |h: usize| handle_model(self.handles@[h as int]->0),
            ),
            temp_counter: self.temp_counter,
        }
    }
}

spec fn handle_model(f: OpenFile) -> HandleModel {
    HandleModel {
        storage: f.storage,
        name: f.name@,
        delete_on_close: f.delete_on_close,
        lock_level: f.lock_level,
    }
}

impl<S: FileStorage> TvmVfs<S> {
    /// The file system's invariant.
    pub closed spec fn wf(&self) -> bool {
        self.files.wf() && self@.wf()
    }

    /// The parts of the model fit together.
    pub proof fn lemma_model(&self)
        requires
            self.wf(),
        ensures
            self@.wf(),
    {
    }

    /// A file system without files.
    pub fn new() -> (r: Self)
        ensures
            r.wf(),
            r@.files == Map::<Seq<char>, usize>::empty(),
            r@.storages == Map::<usize, S>::empty(),
            r@.handles == Map::<usize, HandleModel>::empty(),
            r@.temp_counter == 0,
    {
        let r = TvmVfs {
            files: NameTable::new(),
            storages: Vec::new(),
            handles: Vec::new(),
            temp_counter: 0,
        };
        proof {
            assert(r@.storages =~= Map::<usize, S>::empty());
            assert(r@.handles =~= Map::<usize, HandleModel>::empty());
        }
        r
    }

    /// Whether a name or an open file refers to the storage `id`.
    fn referenced(&self, id: usize) -> (r: bool)
        requires
            self.files.wf(),
        ensures
            r == self@.referenced(id),
    {
        let mut i: usize = 0;
        let n: usize = self.files.len();
        proof {
            self.files.lemma_names();
        }
        while i < n
            invariant
                self.files.wf(),
                n == self.files.names().len(),
                forall|j: int|
                    0 <= j < i ==> self@.files[#[trigger] self.files.names()[j]] != id,
            decreases n - i,
        {
            let v: usize = *self.files.value_at(i);
            if v == id {
                assert(self@.files.contains_key(self.files.names()[i as int]));
                return true;
            }
            i = i + 1;
        }
        let mut h: usize = 0;
        while h < self.handles.len()
            invariant
                forall|j: int|
                    0 <= j < h ==> ((#[trigger] self.handles@[j]) is Some ==> self.handles@[j]->0.storage
                        != id),
            decreases self.handles.len() - h,
        {
            match &self.handles[h] {
                Some(f) => {
                    if f.storage == id {
                        assert(self@.handles.contains_key(h));
                        return true;
                    }
                },
                None => {},
            }
            h = h + 1;
        }
        proof {
            assert forall|name: Seq<char>| #[trigger]
                self@.files.contains_key(name) implies self@.files[name] != id by {
                assert(self.files.names().to_set().contains(name));
                let j = choose|j: int|
                    0 <= j < self.files.names().len() && self.files.names()[j] == name;
                assert(self@.files[self.files.names()[j]] != id);
            }
            assert forall|h: usize| #[trigger] self@.handles.contains_key(h) implies
                self@.handles[h].storage != id by {
                assert(self.handles@[h as int] is Some);
            }
        }
        false
    }

    /// Drops the storage `id` if nothing refers to it any more. Every other
    /// storage has to be referred to.
    fn sweep(&mut self, id: usize)
        requires
            old(self).files.wf(),
            forall|k: usize|
                old(self)@.referenced(k) ==> #[trigger] old(self)@.storages.contains_key(k),
            forall|k: usize| #[trigger]
                old(self)@.storages.contains_key(k) && k != id ==> old(self)@.referenced(k),
            forall|k: usize| #[trigger]
                old(self)@.storages.contains_key(k) ==> old(self)@.storages[k].inv(),
            distinct(old(self)@.files),
            old(self)@.apart(),
        ensures
            final(self).wf(),
            final(self)@ == old(self)@.swept(),
    {
        if id < self.storages.len() && !self.referenced(id) {
            self.storages.set(id, None);
        }
        proof {
            let m = old(self)@;
            assert(self@.handles =~= m.handles);
            assert(self@.storages =~= m.swept().storages) by {
                assert forall|k: usize| self@.storages.contains_key(k)
                    <==> m.swept().storages.contains_key(k) by {
                    if m.storages.contains_key(k) && k != id {
                        assert(m.referenced(k));
                    }
                }
            }
            lemma_same_refs(m, self@);
            assert forall|k: usize| #[trigger] self@.storages.contains_key(k)
                <==> self@.referenced(k) by {
                if m.referenced(k) {
                    assert(m.storages.contains_key(k));
                }
            }
        }
    }

    /// Opens the file at `path`, or a temporary one without a path. A file that
    /// is not there is created with a storage from `make` where the flags allow
    /// it. The result is the handle, or one of the engine's codes.
    pub fn vfs_open<F: FnOnce() -> Result<S, i32>>(
        &mut self,
        path: Option<&[u8]>,
        flags: i32,
        make: F,
    ) -> (r: Result<usize, i32>)
        requires
            old(self).wf(),
            make.requires(()),
            forall|s: S| #[trigger] make.ensures((), Ok(s)) ==> s.inv(),
        ensures
            final(self).wf(),
            ({
                let m = old(self)@;
                let bytes = path_bytes(path);
                if path is Some && !valid_utf8(path->0@) {
                    r == Err::<usize, i32>(SQLITE_IOERR) && final(self)@ == m
                } else {
                    let (name, delete_on_close) = m.target(bytes, flags);
                    match r {
                        Ok(h) => {
                            &&& !m.handles.contains_key(h)
                            &&& if m.files.contains_key(name) {
                                final(self)@ == m.named(bytes).opened(h, name, delete_on_close)
                            } else {
                                &&& has_flag(flags, SQLITE_OPEN_CREATE)
                                &&& final(self)@.files.contains_key(name)
                                &&& ({
                                    let id = final(self)@.files[name];
                                    let s = final(self)@.storages[id];
                                    &&& make.ensures((), Ok(s))
                                    &&& !m.storages.contains_key(id)
                                    &&& final(self)@ == m.named(bytes).created(name, id, s).opened(
                                        h,
                                        name,
                                        delete_on_close,
                                    )
                                })
                            }
                        },
                        Err(rc) => {
                            &&& !m.files.contains_key(name)
                            &&& final(self)@ == m.named(bytes)
                            &&& if has_flag(flags, SQLITE_OPEN_CREATE) {
                                make.ensures((), Err(rc))
                            } else {
                                rc == SQLITE_CANTOPEN
                            }
                        },
                    }
                }
            }),
            r is Ok ==> final(self)@.handles[r->Ok_0].delete_on_close == match path {
                Some(p) => flags & 0x8 != 0 || reserved(p@),
                None => true,
            },
            match path {
                Some(p) => valid_utf8(p@) ==> {
                    let name = decode_utf8(p@);
                    &&& old(self)@.files.contains_key(name) ==> r is Ok && final(self)@.files
                        == old(self)@.files
                    &&& !old(self)@.files.contains_key(name) && flags & 0x4 == 0 ==> r == Err::<
                        usize,
                        i32,
                    >(SQLITE_CANTOPEN) && final(self)@ == old(self)@
                    &&& r is Ok ==> final(self)@.files.contains_key(name) && (final(self)@).handles[r->Ok_0].storage == final(self)@.files[name]
                },
                None => true,
            },
    {
        proof {
            lemma_which_files_go_on_close(old(self)@, path_bytes(path), flags);
        }
        let explicit_delete: bool = (flags & SQLITE_OPEN_DELETEONCLOSE) != 0;
        let name: String;
        let delete_on_close: bool;
        match path {
            None => {
                let mut s = String::from_str("__tvm_tmp_");
                push_decimal(&mut s, self.temp_counter);
                self.temp_counter = self.temp_counter.wrapping_add(1);
                name = s;
                delete_on_close = true;
            },
            Some(p) => match utf8_text(p) {
                Some(s) => {
                    let anon: bool = bytes_start_with(s.as_bytes(), "/__tvm_mem_anon_".as_bytes());
                    name = s.to_owned();
                    delete_on_close = explicit_delete || anon;
                },
                None => {
                    return Err(SQLITE_IOERR);
                },
            },
        }
        let ghost bytes = path_bytes(path);
        let ghost m = old(self)@;
        let ghost m1 = self@;
        proof {
            assert(m1.handles =~= m.handles);
            assert(m1.storages =~= m.storages);
            assert(m1 =~= m.named(bytes));
            assert(m.target(bytes, flags) == (name@, delete_on_close));
            lemma_same_refs(m, m1);
        }
        let id: usize = match self.files.get(name.as_str()) {
            Some(id) => *id,
            None => {
                if (flags & SQLITE_OPEN_CREATE) == 0 {
                    return Err(SQLITE_CANTOPEN);
                }
                match make() {
                    Ok(s) => {
                        let ghost fresh = s;
                        let id: usize = self.storages.len();
                        self.storages.push(Some(s));
                        self.files.insert(name.clone(), id);
                        proof {
                            assert(self@.handles =~= m1.handles);
                            assert(self@.storages =~= m1.storages.insert(id, fresh));
                            assert(self@ =~= m1.created(name@, id, fresh));
                            lemma_created_refs(m1, name@, id, fresh);
                        }
                        id
                    },
                    Err(rc) => {
                        return Err(rc);
                    },
                }
            },
        };
        let ghost m2 = self@;
        let h: usize = self.handles.len();
        let ghost nm = name@;
        self.handles.push(
            Some(OpenFile { storage: id, name, delete_on_close, lock_level: SQLITE_LOCK_NONE }),
        );
        proof {
            assert(self@.storages =~= m2.storages);
            assert(self@.handles =~= m2.opened(h, nm, delete_on_close).handles);
            assert(self@ =~= m2.opened(h, nm, delete_on_close));
            lemma_opened_refs(m2, h, nm, delete_on_close);
        }
        Ok(h)
    }

    /// Forgets the handle `h`.
    fn forget_handle(&mut self, h: usize) -> (r: OpenFile)
        requires
            old(self).wf(),
            old(self)@.handles.contains_key(h),
        ensures
            final(self).wf(),
            handle_model(r) == old(self)@.handles[h],
            final(self)@ == old(self)@.without_handle(h),
    {
        let ghost m = self@;
        let taken: Option<OpenFile> = self.handles[h].take();
        let f: OpenFile = match taken {
            Some(f) => f,
            None => {
                assert(false);
                OpenFile {
                    storage: 0,
                    name: String::new(),
                    delete_on_close: false,
                    lock_level: SQLITE_LOCK_NONE,
                }
            },
        };
        let ghost m1 = self@;
        proof {
            assert(m1.storages =~= m.storages);
            assert(m1.handles =~= m.handles.remove(h));
            assert forall|k: usize| m1.referenced(k) implies m.referenced(k) by {
                if exists|g: usize| #[trigger]
                    m1.handles.contains_key(g) && m1.handles[g].storage == k {
                    let g = choose|g: usize| #[trigger]
                        m1.handles.contains_key(g) && m1.handles[g].storage == k;
                    assert(m.handles.contains_key(g));
                } else {
                    let x = choose|x: Seq<char>| #[trigger]
                        m1.files.contains_key(x) && m1.files[x] == k;
                    assert(m.files.contains_key(x));
                }
            }
            assert forall|k: usize| #[trigger]
                m1.storages.contains_key(k) && k != f.storage implies m1.referenced(k) by {
                assert(m.storages.contains_key(k));
                assert(m.referenced(k));
                if exists|g: usize| #[trigger]
                    m.handles.contains_key(g) && m.handles[g].storage == k {
                    let g = choose|g: usize| #[trigger]
                        m.handles.contains_key(g) && m.handles[g].storage == k;
                    assert(m1.handles.contains_key(g));
                } else {
                    let x = choose|x: Seq<char>| #[trigger]
                        m.files.contains_key(x) && m.files[x] == k;
                    assert(m1.files.contains_key(x));
                }
            }
        }
        self.sweep(f.storage);
        f
    }

    /// Forgets the file `name`.
    fn forget_name(&mut self, name: &str)
        requires
            old(self).wf(),
        ensures
            final(self).wf(),
            final(self)@ == old(self)@.deleted(name@),
    {
        let ghost m = self@;
        let gone: Option<usize> = self.files.remove(name);
        let ghost m1 = self@;
        proof {
            assert(m1.storages =~= m.storages);
            assert(m1.handles =~= m.handles);
            assert forall|k: usize| m1.referenced(k) implies m.referenced(k) by {
                if exists|x: Seq<char>| #[trigger] m1.files.contains_key(x) && m1.files[x] == k {
                    let x = choose|x: Seq<char>| #[trigger]
                        m1.files.contains_key(x) && m1.files[x] == k;
                    assert(m.files.contains_key(x));
                }
                if exists|g: usize| #[trigger]
                    m1.handles.contains_key(g) && m1.handles[g].storage == k {
                    let g = choose|g: usize| #[trigger]
                        m1.handles.contains_key(g) && m1.handles[g].storage == k;
                    assert(m.handles.contains_key(g));
                }
            }
            assert forall|k: usize| #[trigger]
                m1.storages.contains_key(k) && (gone is Some ==> k != gone->0) implies m1.referenced(
                k,
            ) by {
                assert(m.storages.contains_key(k));
                assert(m.referenced(k));
                if exists|x: Seq<char>| #[trigger] m.files.contains_key(x) && m.files[x] == k {
                    let x = choose|x: Seq<char>| #[trigger]
                        m.files.contains_key(x) && m.files[x] == k;
                    assert(m1.files.contains_key(x));
                } else {
                    let g = choose|g: usize| #[trigger]
                        m.handles.contains_key(g) && m.handles[g].storage == k;
                    assert(m1.handles.contains_key(g));
                }
            }
        }
        match gone {
            Some(id) => {
                self.sweep(id);
            },
            None => {
                proof {
                    assert(m1.files =~= m.files);
                    assert(m1 =~= m);
                    lemma_swept_same(m);
                }
            },
        }
    }

    /// Closes the handle `h`; nothing happens for one that is not open.
    pub fn io_close(&mut self, h: usize) -> (r: i32)
        requires
            old(self).wf(),
        ensures
            final(self).wf(),
            r == SQLITE_OK,
            final(self)@ == if old(self)@.handles.contains_key(h) {
                old(self)@.closed(h)
            } else {
                old(self)@
            },
    {
        if h >= self.handles.len() {
            return SQLITE_OK;
        }
        if self.handles[h].is_none() {
            return SQLITE_OK;
        }
        let f: OpenFile = self.forget_handle(h);
        if f.delete_on_close {
            self.forget_name(f.name.as_str());
        }
        SQLITE_OK
    }

    /// Deletes the file at `path`; one that is not there counts as deleted.
    pub fn vfs_delete(&mut self, path: &[u8]) -> (r: i32)
        requires
            old(self).wf(),
        ensures
            final(self).wf(),
            if valid_utf8(path@) {
                r == SQLITE_OK && final(self)@ == old(self)@.deleted(decode_utf8(path@))
            } else {
                r == SQLITE_IOERR && final(self)@ == old(self)@
            },
    {
        match utf8_text(path) {
            Some(name) => {
                self.forget_name(name);
                SQLITE_OK
            },
            None => SQLITE_IOERR,
        }
    }

    /// Whether there is a file at `path`.
    pub fn vfs_access(&self, path: &[u8]) -> (r: Result<bool, i32>)
        requires
            self.wf(),
        ensures
            r == if valid_utf8(path@) {
                Ok::<bool, i32>(self@.files.contains_key(decode_utf8(path@)))
            } else {
                Err(SQLITE_IOERR)
            },
    {
        match utf8_text(path) {
            Some(name) => Ok(self.files.contains(name)),
            None => Err(SQLITE_IOERR),
        }
    }

    /// Reads from an open file into `buf`, which may not be empty.
    pub fn io_read(&self, h: usize, buf: &mut [u8], ofst: i64) -> (r: i32)
        requires
            self.wf(),
        ensures
            final(buf)@.len() == old(buf)@.len(),
            if !self@.handles.contains_key(h) || old(buf)@.len() == 0 {
                r == SQLITE_IOERR && final(buf)@ == old(buf)@
            } else {
                let s = self@.storage_of(h);
                &&& r == SQLITE_OK || r == SQLITE_IOERR_SHORT_READ ==> final(buf)@ == window(
                    s.content(),
                    ofst as u64 as int,
                    old(buf)@.len(),
                )
                &&& r == SQLITE_OK ==> ofst as u64 + old(buf)@.len() <= s.content().len()
                &&& r == SQLITE_IOERR_SHORT_READ ==> ofst as u64 + old(buf)@.len()
                    > s.content().len()
                &&& s.reliable() ==> r == if ofst as u64 + old(buf)@.len() <= s.content().len() {
                    SQLITE_OK
                } else {
                    SQLITE_IOERR_SHORT_READ
                }
            },
    {
        let len: usize = buf.len();
        if h >= self.handles.len() || len == 0 {
            return SQLITE_IOERR;
        }
        match &self.handles[h] {
            Some(f) => {
                proof {
                    assert(self@.handles.contains_key(h));
                    assert(self@.referenced(f.storage));
                    assert(self@.storages.contains_key(f.storage));
                }
                match &self.storages[f.storage] {
                    Some(s) => match s.read(ofst as u64, buf) {
                        Ok(()) => SQLITE_OK,
                        Err(code) => code,
                    },
                    None => SQLITE_IOERR,
                }
            },
            None => SQLITE_IOERR,
        }
    }

    /// Writes `buf`, which may not be empty, to an open file.
    pub fn io_write(&mut self, h: usize, buf: &[u8], ofst: i64) -> (r: i32)
        requires
            old(self).wf(),
            ofst as u64 + buf@.len() <= u64::MAX,
            old(self)@.handles.contains_key(h) ==> old(self)@.storage_of(h).fits(
                ofst as u64 + buf@.len(),
            ),
        ensures
            final(self).wf(),
            if !old(self)@.handles.contains_key(h) || buf@.len() == 0 {
                r == SQLITE_IOERR && final(self)@ == old(self)@
            } else {
                let s = old(self)@.storage_of(h);
                let t = final(self)@.storage_of(h);
                &&& final(self)@ == old(self)@.stored(h, t)
                &&& r == SQLITE_OK ==> t.content() == overwritten(
                    s.content(),
                    ofst as u64 as int,
                    buf@,
                )
                &&& t.reliable() == s.reliable()
                &&& s.reliable() ==> r == SQLITE_OK
            },
    {
        if h >= self.handles.len() || buf.len() == 0 {
            return SQLITE_IOERR;
        }
        let ghost m = self@;
        let id: usize = match &self.handles[h] {
            Some(f) => f.storage,
            None => {
                return SQLITE_IOERR;
            },
        };
        proof {
            assert(m.handles.contains_key(h));
            assert(m.referenced(id));
            assert(m.storages.contains_key(id));
        }
        let r: i32 = match &mut self.storages[id] {
            Some(s) => match s.write(ofst as u64, buf) {
                Ok(()) => SQLITE_OK,
                Err(code) => code,
            },
            None => SQLITE_IOERR,
        };
        proof {
            assert(self@.handles =~= m.handles);
            assert(self@.storages =~= m.stored(h, self@.storage_of(h)).storages);
            assert(self@ =~= m.stored(h, self@.storage_of(h)));
            lemma_stored(m, self@, h);
        }
        r
    }

    /// Sets the size of an open file.
    pub fn io_truncate(&mut self, h: usize, size: i64) -> (r: i32)
        requires
            old(self).wf(),
            old(self)@.handles.contains_key(h) ==> old(self)@.storage_of(h).fits(
                size as u64 as int,
            ),
        ensures
            final(self).wf(),
            if !old(self)@.handles.contains_key(h) {
                r == SQLITE_IOERR && final(self)@ == old(self)@
            } else {
                let s = old(self)@.storage_of(h);
                let t = final(self)@.storage_of(h);
                &&& final(self)@ == old(self)@.stored(h, t)
                &&& r == SQLITE_OK ==> t.content() == resized(s.content(), size as u64 as nat)
                &&& t.reliable() == s.reliable()
                &&& s.reliable() ==> r == SQLITE_OK
            },
    {
        if h >= self.handles.len() {
            return SQLITE_IOERR;
        }
        let ghost m = self@;
        let id: usize = match &self.handles[h] {
            Some(f) => f.storage,
            None => {
                return SQLITE_IOERR;
            },
        };
        proof {
            assert(m.handles.contains_key(h));
            assert(m.referenced(id));
            assert(m.storages.contains_key(id));
        }
        let r: i32 = match &mut self.storages[id] {
            Some(s) => match s.truncate(size as u64) {
                Ok(()) => SQLITE_OK,
                Err(code) => code,
            },
            None => SQLITE_IOERR,
        };
        proof {
            assert(self@.handles =~= m.handles);
            assert(self@.storages =~= m.stored(h, self@.storage_of(h)).storages);
            assert(self@ =~= m.stored(h, self@.storage_of(h)));
            lemma_stored(m, self@, h);
        }
        r
    }

    /// The size of an open file.
    pub fn io_file_size(&self, h: usize) -> (r: Result<i64, i32>)
        requires
            self.wf(),
        ensures
            r == if self@.handles.contains_key(h) {
                Ok::<i64, i32>(self@.storage_of(h).content().len() as u64 as i64)
            } else {
                Err(SQLITE_IOERR)
            },
    {
        if h >= self.handles.len() {
            return Err(SQLITE_IOERR);
        }
        match &self.handles[h] {
            Some(f) => {
                proof {
                    assert(self@.handles.contains_key(h));
                    assert(self@.referenced(f.storage));
                    assert(self@.storages.contains_key(f.storage));
                }
                match &self.storages[f.storage] {
                    Some(s) => Ok(s.size() as i64),
                    None => Err(SQLITE_IOERR),
                }
            },
            None => Err(SQLITE_IOERR),
        }
    }

    /// Raises the lock level of an open file to `level`; it is never lowered.
    /// Nobody else can hold a lock, so the request is always granted, also where
    /// there is no open file.
    pub fn io_lock(&mut self, h: usize, level: i32) -> (r: i32)
        requires
            old(self).wf(),
        ensures
            final(self).wf(),
            if !old(self)@.handles.contains_key(h) {
                r == SQLITE_OK && final(self)@ == old(self)@
            } else {
                let now = old(self)@.handles[h].lock_level;
                r == SQLITE_OK && final(self)@ == old(self)@.locked(
                    h,
                    if level > now {
                        level
                    } else {
                        now
                    },
                )
            },
    {
        if h >= self.handles.len() || self.handles[h].is_none() {
            return SQLITE_OK;
        }
        let ghost m = self@;
        match &mut self.handles[h] {
            Some(f) => {
                if level > f.lock_level {
                    f.lock_level = level;
                }
            },
            None => {},
        }
        proof {
            assert(m.handles.contains_key(h));
            let now = m.handles[h].lock_level;
            let to = if level > now {
                level
            } else {
                now
            };
            assert(self@.storages =~= m.storages);
            assert(self@.handles =~= m.locked(h, to).handles);
            assert(self@ =~= m.locked(h, to));
            lemma_locked_refs(m, h, to);
        }
        SQLITE_OK
    }

    /// Lowers the lock level of an open file to `level`; it is never raised.
    pub fn io_unlock(&mut self, h: usize, level: i32) -> (r: i32)
        requires
            old(self).wf(),
        ensures
            final(self).wf(),
            if !old(self)@.handles.contains_key(h) {
                r == SQLITE_OK && final(self)@ == old(self)@
            } else {
                let now = old(self)@.handles[h].lock_level;
                r == SQLITE_OK && final(self)@ == old(self)@.locked(
                    h,
                    if level < now {
                        level
                    } else {
                        now
                    },
                )
            },
    {
        if h >= self.handles.len() || self.handles[h].is_none() {
            return SQLITE_OK;
        }
        let ghost m = self@;
        match &mut self.handles[h] {
            Some(f) => {
                if level < f.lock_level {
                    f.lock_level = level;
                }
            },
            None => {},
        }
        proof {
            assert(m.handles.contains_key(h));
            let now = m.handles[h].lock_level;
            let to = if level < now {
                level
            } else {
                now
            };
            assert(self@.storages =~= m.storages);
            assert(self@.handles =~= m.locked(h, to).handles);
            assert(self@ =~= m.locked(h, to));
            lemma_locked_refs(m, h, to);
        }
        SQLITE_OK
    }

    /// The number of the storage that an open file is on: two handles on the
    /// same file have the same one.
    pub fn storage_id(&self, h: usize) -> (r: Option<usize>)
        ensures
            r == if self@.handles.contains_key(h) {
                Some(self@.handles[h].storage)
            } else {
                None
            },
    {
        if h >= self.handles.len() {
            return None;
        }
        match &self.handles[h] {
            Some(f) => Some(f.storage),
            None => None,
        }
    }

    /// How many files there are.
    pub fn file_count(&self) -> (r: usize)
        requires
            self.wf(),
        ensures
            r == self@.files.dom().len(),
            self@.files.dom().finite(),
    {
        self.files.len()
    }

    /// The sizes of all files, summed.
    pub fn bytes_in_use(&self) -> (r: u64)
        requires
            self.wf(),
            self@.total_size() <= u64::MAX,
        ensures
            r == self@.total_size(),
            forall|order: Seq<Seq<char>>| #[trigger]
                lists(order, self@.files.dom()) ==> r == self@.sizes(order),
    {
        match self.checked_bytes_in_use() {
            Some(total) => total,
            None => 0,
        }
    }

    /// The sizes of all files, summed; `None` where the sum is out of range.
    pub fn checked_bytes_in_use(&self) -> (r: Option<u64>)
        requires
            self.wf(),
        ensures
            r == if self@.total_size() <= u64::MAX {
                Some(self@.total_size() as u64)
            } else {
                None
            },
            forall|order: Seq<Seq<char>>| #[trigger]
                lists(order, self@.files.dom()) ==> self@.sizes(order) == self@.total_size(),
    {
        let n: usize = self.files.len();
        let mut i: usize = 0;
        let mut total: u64 = 0;
        let ghost names = self.files.names();
        proof {
            self.files.lemma_names();
            assert(lists(names, self@.files.dom()));
            assert forall|order: Seq<Seq<char>>| #[trigger]
                lists(order, self@.files.dom()) implies self@.sizes(order) == self@.sizes(names) by {
                lemma_sizes_any_order(self@, order, names);
            }
            assert(names.take(0) =~= Seq::<Seq<char>>::empty());
        }
        while i < n
            invariant
                self.wf(),
                names == self.files.names(),
                n == names.len(),
                i <= n,
                total == self@.sizes(names.take(i as int)),
                self@.sizes(names) == self@.total_size(),
                forall|order: Seq<Seq<char>>| #[trigger]
                    lists(order, self@.files.dom()) ==> self@.sizes(order) == self@.total_size(),
            decreases n - i,
        {
            let id: usize = *self.files.value_at(i);
            proof {
                assert(self@.files.contains_key(names[i as int]));
                assert(self@.referenced(id));
                assert(self@.storages.contains_key(id));
                assert(names.take(i + 1).drop_last() =~= names.take(i as int));
                lemma_sizes_prefix(self@, names, i + 1);
            }
            match &self.storages[id] {
                Some(s) => match total.checked_add(s.size()) {
                    Some(sum) => {
                        total = sum;
                    },
                    None => {
                        return None;
                    },
                },
                None => {},
            }
            i = i + 1;
        }
        assert(names.take(n as int) =~= names);
        Some(total)
    }

    /// Drops every file and starts over with synthetic names. Open files keep
    /// what they have.
    pub fn clear_for_tests(&mut self)
        requires
            old(self).wf(),
        ensures
            final(self).wf(),
            final(self)@ == old(self)@.cleared(),
    {
        self.files.clear();
        self.temp_counter = 0;
        let ghost m = self@;
        let mut i: usize = 0;
        proof {
            assert(m.handles =~= old(self)@.handles);
            assert(m.storages =~= old(self)@.storages);
            assert forall|k: usize| m.referenced(k) implies m.storages.contains_key(k) by {
                let g = choose|g: usize| #[trigger]
                    m.handles.contains_key(g) && m.handles[g].storage == k;
                assert(old(self)@.handles.contains_key(g));
                assert(old(self)@.referenced(k));
                assert(old(self)@.storages.contains_key(k));
            }
        }
        let n: usize = self.storages.len();
        while i < n
            invariant
                self.files.wf(),
                n == self.storages.len(),
                i <= n,
                self@.files == m.files,
                self@.handles == m.handles,
                self@.temp_counter == m.temp_counter,
                forall|k: usize| #[trigger]
                    self@.storages.contains_key(k) <==> m.storages.contains_key(k) && (k < i
                        ==> m.referenced(k)),
                forall|k: usize| #[trigger]
                    self@.storages.contains_key(k) ==> self@.storages[k] == m.storages[k],
            decreases n - i,
        {
            let ghost pre = self@;
            proof {
                lemma_same_refs(m, pre);
            }
            if !self.referenced(i) {
                self.storages.set(i, None);
                proof {
                    assert(self@.handles =~= pre.handles);
                    assert forall|k: usize| #[trigger] self@.storages.contains_key(k)
                        <==> pre.storages.contains_key(k) && k != i by {}
                }
            }
            i = i + 1;
        }
        proof {
            let want = old(self)@.cleared();
            assert(m =~= VfsModel {
                files: Map::<Seq<char>, usize>::empty(),
                temp_counter: 0,
                ..old(self)@
            });
            assert(self@.storages =~= want.storages) by {
                assert forall|k: usize| self@.storages.contains_key(k)
                    <==> want.storages.contains_key(k) by {
                    if self@.storages.contains_key(k) {
                        assert(k < n);
                    }
                }
            }
            assert(self@ =~= want);
            lemma_same_refs(m, self@);
            assert forall|k: usize| #[trigger] self@.storages.contains_key(k)
                <==> self@.referenced(k) by {
                if m.referenced(k) {
                    assert(m.storages.contains_key(k));
                }
            }
            assert forall|k: usize| #[trigger] self@.storages.contains_key(k) implies
                self@.storages[k].inv() by {
                assert(old(self)@.storages.contains_key(k));
            }
        }
    }
}

/// A prefix of the files is no larger than all of them.
proof fn lemma_sizes_prefix<S: StorageModel>(m: VfsModel<S>, order: Seq<Seq<char>>, n: int)
    requires
        0 <= n <= order.len(),
    ensures
        m.sizes(order.take(n)) <= m.sizes(order),
    decreases order.len(),
{
    if n < order.len() {
        lemma_sizes_prefix(m, order.drop_last(), n);
        assert(order.drop_last().take(n) =~= order.take(n));
    } else {
        assert(order.take(n) =~= order);
    }
}

/// The name to open a database with to reach this file system.
pub fn name() -> (r: &'static str)
    ensures
        r@ == "tvm-mem"@,
{
    "tvm-mem"
}

/// Starts a registration: the default-flag to hand to the engine, or `None` if
/// there is nothing to add.
fn install_internal(gate: &mut DefaultGate, make_default: bool) -> (r: Option<i32>)
    ensures
        final(gate)@.settled == old(gate)@.settled,
        if make_default {
            &&& final(gate)@.asked == Registered::AsDefault
            &&& r == if old(gate)@.asked == Registered::AsDefault {
                None
            } else {
                Some(1i32)
            }
        } else if old(gate)@.asked == Registered::No {
            final(gate)@.asked == Registered::ByName && r == Some(0i32)
        } else {
            final(gate)@.asked == old(gate)@.asked && r is None
        },
{
    if !gate.claim(make_default) {
        return None;
    }
    Some(
        if make_default {
            1
        } else {
            0
        },
    )
}

/// Starts registering the file system under its name: the default-flag to hand
/// to the engine, or `None` if it is registered already.
pub fn install(gate: &mut DefaultGate) -> (r: Option<i32>)
    ensures
        final(gate)@.settled == old(gate)@.settled,
        if old(gate)@.asked == Registered::No {
            final(gate)@.asked == Registered::ByName && r == Some(0i32)
        } else {
            final(gate)@.asked == old(gate)@.asked && r is None
        },
{
    install_internal(gate, false)
}

/// As `install`, for the file system to become the engine's default too: `None`
/// only if it is the default already. One that is registered under its name is
/// registered again, as the default.
pub fn install_as_default(gate: &mut DefaultGate) -> (r: Option<i32>)
    ensures
        final(gate)@.settled == old(gate)@.settled,
        final(gate)@.asked == Registered::AsDefault,
        r == if old(gate)@.asked == Registered::AsDefault {
            None
        } else {
            Some(1i32)
        },
{
    install_internal(gate, true)
}

/// Settles what was asked for by the engine's answer.
pub fn installed(gate: &mut DefaultGate, rc: i32) -> (r: Result<(), InstallError>)
    ensures
        final(gate)@.settled == final(gate)@.asked,
        final(gate)@.settled == if rc == SQLITE_OK {
            old(gate)@.asked
        } else {
            old(gate)@.settled
        },
        match r {
            Ok(()) => rc == SQLITE_OK,
            Err(e) => rc != SQLITE_OK && e.code == rc && e.message@
                == "sqlite3_vfs_register failed"@,
        },
{
    gate.finish(rc, "sqlite3_vfs_register failed")
}

/// Whether the file system is registered, or about to be.
pub fn is_installed(gate: &DefaultGate) -> (r: bool)
    ensures
        r == (gate@.asked != Registered::No),
{
    gate.is_installed()
}

/// The canonical name of a file is its name: copies it and a terminating NUL
/// into `out`, cut short where it does not fit.
pub fn vfs_full_pathname(path: &[u8], out: &mut [u8]) -> (r: i32)
    requires
        path@.len() < usize::MAX,
    ensures
        final(out)@.len() == old(out)@.len(),
        if old(out)@.len() == 0 {
            r == SQLITE_IOERR && final(out)@ == old(out)@
        } else {
            let n = if path@.len() < old(out)@.len() {
                path@.len() as int
            } else {
                old(out)@.len() - 1
            };
            r == SQLITE_OK && final(out)@ == splice(old(out)@, 0, path@.take(n).push(0u8))
        },
{
    let cap: usize = out.len();
    if cap == 0 {
        return SQLITE_IOERR;
    }
    let n: usize = if path.len() < cap {
        path.len()
    } else {
        cap - 1
    };
    copy_range(out, 0, path, 0, n);
    out[n] = 0;
    assert(out@ =~= splice(old(out)@, 0, path@.take(n as int).push(0u8)));
    SQLITE_OK
}

/// The sector size the engine should assume.
pub fn io_sector_size() -> (r: i32)
    ensures
        r == 4096,
{
    4096
}

/// What the engine may rely on: writes are atomic, appends safe, and writes
/// happen in order.
pub fn io_device_characteristics() -> (r: i32)
    ensures
        r == SQLITE_IOCAP_ATOMIC | SQLITE_IOCAP_SAFE_APPEND | SQLITE_IOCAP_SEQUENTIAL,
{
    SQLITE_IOCAP_ATOMIC | SQLITE_IOCAP_SAFE_APPEND | SQLITE_IOCAP_SEQUENTIAL
}

/// No request that is particular to a file system is known.
pub fn io_file_control(op: i32) -> (r: i32)
    ensures
        r == SQLITE_NOTFOUND,
{
    SQLITE_NOTFOUND
}

/// The time shown to the engine, in milliseconds of Julian days: a fixed
/// moment, the start of the year 2000.
pub fn vfs_current_time_int64() -> (r: i64)
    ensures
        2 * r == 4_903_089 * 86_400_000,
{
    211_813_444_800_000
}

/// Two handles opened on the same name share one storage.
pub proof fn lemma_same_name_same_storage<S: StorageModel>(
    m: VfsModel<S>,
    name: Seq<char>,
    h1: usize,
    d1: bool,
    h2: usize,
    d2: bool,
)
    requires
        h1 != h2,
    ensures
        m.opened(h1, name, d1).opened(h2, name, d2).storage_of(h1) == m.opened(
            h1,
            name,
            d1,
        ).opened(h2, name, d2).storage_of(h2),
{
}

/// Open files with different names never share a storage: what is written to one
/// of them leaves the other as it is.
pub proof fn lemma_different_names_apart<S: StorageModel>(m: VfsModel<S>, g: usize, h: usize, s: S)
    requires
        m.wf(),
        m.handles.contains_key(g),
        m.handles.contains_key(h),
        m.handles[g].name != m.handles[h].name,
    ensures
        m.handles[g].storage != m.handles[h].storage,
        m.stored(h, s).storage_of(g) == m.storage_of(g),
{
}

/// A file that is created and deleted on close leaves nothing behind.
pub proof fn lemma_temporary_leaves_nothing<S: StorageModel>(
    m: VfsModel<S>,
    name: Seq<char>,
    id: usize,
    s: S,
    h: usize,
)
    requires
        m.wf(),
        !m.files.contains_key(name),
        !m.storages.contains_key(id),
        !m.handles.contains_key(h),
        s.inv(),
    ensures
        m.created(name, id, s).opened(h, name, true).closed(h) == m,
{
    let c = m.created(name, id, s);
    let o = c.opened(h, name, true);
    lemma_created_refs(m, name, id, s);
    let w = VfsModel { handles: o.handles.remove(h), ..o };
    assert(w.handles =~= c.handles);
    assert(w =~= c);
    lemma_swept_same(c);
    assert(o.without_handle(h) == c);
    let d = VfsModel { files: c.files.remove(name), ..c };
    assert(d.files =~= m.files);
    lemma_same_refs(m, d);
    assert(d.swept().storages =~= m.storages);
    assert(d.swept() =~= m);
}

/// A named file keeps its bytes when it is closed, for the next one to open it.
pub proof fn lemma_named_file_survives_close<S: StorageModel>(m: VfsModel<S>, h: usize)
    requires
        m.wf(),
        m.handles.contains_key(h),
        !m.handles[h].delete_on_close,
    ensures
        m.closed(h).files == m.files,
        forall|name: Seq<char>| #[trigger]
            m.files.contains_key(name) ==> m.closed(h).storages.contains_key(m.files[name])
                && m.closed(h).storages[m.files[name]] == m.storages[m.files[name]],
{
    let w = VfsModel { handles: m.handles.remove(h), ..m };
    assert forall|name: Seq<char>| #[trigger] m.files.contains_key(name) implies m.closed(
        h,
    ).storages.contains_key(m.files[name]) by {
        assert(w.files.contains_key(name));
        assert(w.referenced(m.files[name]));
        assert(m.referenced(m.files[name]));
        assert(m.storages.contains_key(m.files[name]));
    }
}

/// Deleting a file leaves every open file with the bytes it had.
pub proof fn lemma_delete_keeps_open_files<S: StorageModel>(m: VfsModel<S>, name: Seq<char>, h: usize)
    requires
        m.wf(),
        m.handles.contains_key(h),
    ensures
        m.deleted(name).handles == m.handles,
        m.deleted(name).storages.contains_key(m.handles[h].storage),
        m.deleted(name).storage_of(h) == m.storage_of(h),
        !m.deleted(name).files.contains_key(name),
{
    let w = VfsModel { files: m.files.remove(name), ..m };
    assert(w.handles.contains_key(h));
    assert(w.referenced(m.handles[h].storage));
    assert(m.referenced(m.handles[h].storage));
    assert(m.storages.contains_key(m.handles[h].storage));
}

/// Synthetic names with different numbers are different.
pub proof fn lemma_temp_names_differ(a: u64, b: u64)
    requires
        a != b,
    ensures
        temp_name(a) != temp_name(b),
{
    let p = "__tvm_tmp_"@;
    if temp_name(a) == temp_name(b) {
        assert(temp_name(a).skip(p.len() as int) =~= decimal(a as nat));
        assert(temp_name(b).skip(p.len() as int) =~= decimal(b as nat));
        lemma_decimal_injective(a as nat, b as nat);
    }
}

} // verus!
