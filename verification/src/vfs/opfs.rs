//! The file system whose files a backend keeps: every operation is handed to
//! the backend, and its answer turned into one of the engine's codes.

use crate::bytes::{copy_range, fill_zero};
use crate::codes::{
    SQLITE_CANTOPEN, SQLITE_FCNTL_LOCKSTATE, SQLITE_FULL, SQLITE_IOCAP_SAFE_APPEND,
    SQLITE_IOCAP_SEQUENTIAL, SQLITE_IOERR, SQLITE_IOERR_SHORT_READ, SQLITE_IOERR_WRITE,
    SQLITE_LOCK_NONE, SQLITE_MISUSE, SQLITE_NOTFOUND, SQLITE_OK, SQLITE_OPEN_CREATE,
    SQLITE_OPEN_DELETEONCLOSE,
};
use crate::install::{InstallError, InstallGate};
use crate::tables::NameTable;
use crate::text::{decimal, push_decimal, utf8_text};
use crate::vfs::storage::window;
use crate::vfs::tvm::{has_flag, path_bytes};
use vstd::prelude::*;
use vstd::string::*;
use vstd::utf8::{decode_utf8, valid_utf8};

verus! {

/// The longest path name the engine has to make room for.
pub const MAX_PATHNAME: i32 = 1024;

/// The classes of failure that a backend tells apart.
#[derive(Copy, Clone, Debug, PartialEq, Eq, Structural)]
pub enum OpfsErrorCode {
    Io,
    NotFound,
    Full,
    Invalid,
}

/// The engine's code for a backend's failure.
pub open spec fn sqlite_code(e: OpfsErrorCode) -> i32 {
    match e {
        OpfsErrorCode::Io => SQLITE_IOERR,
        OpfsErrorCode::NotFound => SQLITE_CANTOPEN,
        OpfsErrorCode::Full => SQLITE_FULL,
        OpfsErrorCode::Invalid => SQLITE_MISUSE,
    }
}

impl OpfsErrorCode {
    /// The engine's code for this failure.
    pub fn to_sqlite(self) -> (r: i32)
        ensures
            r == sqlite_code(self),
            r != SQLITE_OK,
    {
        match self {
            OpfsErrorCode::Io => SQLITE_IOERR,
            OpfsErrorCode::NotFound => SQLITE_CANTOPEN,
            OpfsErrorCode::Full => SQLITE_FULL,
            OpfsErrorCode::Invalid => SQLITE_MISUSE,
        }
    }
}

/// What keeps the files. Nothing is promised of its answers.
pub trait OpfsBackend: Send + Sync {
    /// Opens the file at `path`, creating it if `create` is set.
    fn open(&self, path: &str, create: bool) -> Result<u64, OpfsErrorCode>;

    /// Reads up to `len` bytes at `offset`.
    fn read(&self, handle: u64, offset: u64, len: u32) -> Result<Vec<u8>, OpfsErrorCode>;

    /// Writes `data` at `offset`; the answer is how much of it was written.
    fn write(&self, handle: u64, offset: u64, data: &[u8]) -> Result<u32, OpfsErrorCode>;

    /// Sets the file's size.
    fn truncate(&self, handle: u64, size: u64) -> Result<(), OpfsErrorCode>;

    /// Makes what was written durable.
    fn sync(&self, handle: u64) -> Result<(), OpfsErrorCode>;

    /// The file's size.
    fn size(&self, handle: u64) -> Result<u64, OpfsErrorCode>;

    /// Gives the handle back.
    fn close(&self, handle: u64) -> Result<(), OpfsErrorCode>;

    /// Deletes the file at `path`.
    fn delete(&self, path: &str) -> Result<(), OpfsErrorCode>;
}

/// The backend in use before one is registered: there is no file, and nothing
/// can be created. It refuses every operation with `NotFound`, so that a VFS
/// without a backend fails at its first use.
pub struct UnsupportedBackend;

impl OpfsBackend for UnsupportedBackend {
    fn open(&self, path: &str, create: bool) -> (r: Result<u64, OpfsErrorCode>)
        ensures
            r == Err::<u64, OpfsErrorCode>(OpfsErrorCode::NotFound),
    {
        Err(OpfsErrorCode::NotFound)
    }

    fn read(&self, handle: u64, offset: u64, len: u32) -> (r: Result<Vec<u8>, OpfsErrorCode>)
        ensures
            r == Err::<Vec<u8>, OpfsErrorCode>(OpfsErrorCode::NotFound),
    {
        Err(OpfsErrorCode::NotFound)
    }

    fn write(&self, handle: u64, offset: u64, data: &[u8]) -> (r: Result<u32, OpfsErrorCode>)
        ensures
            r == Err::<u32, OpfsErrorCode>(OpfsErrorCode::NotFound),
    {
        Err(OpfsErrorCode::NotFound)
    }

    fn truncate(&self, handle: u64, size: u64) -> (r: Result<(), OpfsErrorCode>)
        ensures
            r == Err::<(), OpfsErrorCode>(OpfsErrorCode::NotFound),
    {
        Err(OpfsErrorCode::NotFound)
    }

    fn sync(&self, handle: u64) -> (r: Result<(), OpfsErrorCode>)
        ensures
            r == Err::<(), OpfsErrorCode>(OpfsErrorCode::NotFound),
    {
        Err(OpfsErrorCode::NotFound)
    }

    fn size(&self, handle: u64) -> (r: Result<u64, OpfsErrorCode>)
        ensures
            r == Err::<u64, OpfsErrorCode>(OpfsErrorCode::NotFound),
    {
        Err(OpfsErrorCode::NotFound)
    }

    fn close(&self, handle: u64) -> (r: Result<(), OpfsErrorCode>)
        ensures
            r == Err::<(), OpfsErrorCode>(OpfsErrorCode::NotFound),
    {
        Err(OpfsErrorCode::NotFound)
    }

    fn delete(&self, path: &str) -> (r: Result<(), OpfsErrorCode>)
        ensures
            r == Err::<(), OpfsErrorCode>(OpfsErrorCode::NotFound),
    {
        Err(OpfsErrorCode::NotFound)
    }
}

/// The backend that is in use.
pub enum BackendSlot<B> {
    Unsupported(UnsupportedBackend),
    Registered(B),
}

impl<B: OpfsBackend> BackendSlot<B> {
    /// `reply` is an answer that the backend gives to opening `path`.
    pub open spec fn opens(&self, path: Seq<char>, create: bool, reply: Result<u64, OpfsErrorCode>) -> bool {
        match self {
            BackendSlot::Unsupported(_) => reply == Err::<u64, OpfsErrorCode>(
                OpfsErrorCode::NotFound,
            ),
            BackendSlot::Registered(b) => exists|p: &str|
                p@ == path && #[trigger] call_ensures(B::open, (b, p, create), reply),
        }
    }

    /// `reply` is an answer that the backend gives to this read.
    pub open spec fn reads(&self, handle: u64, offset: u64, len: u32, reply: Result<Vec<u8>, OpfsErrorCode>) -> bool {
        match self {
            BackendSlot::Unsupported(_) => reply == Err::<Vec<u8>, OpfsErrorCode>(
                OpfsErrorCode::NotFound,
            ),
            BackendSlot::Registered(b) => call_ensures(B::read, (b, handle, offset, len), reply),
        }
    }

    /// `reply` is an answer that the backend gives to this write.
    pub open spec fn writes(&self, handle: u64, offset: u64, data: Seq<u8>, reply: Result<u32, OpfsErrorCode>) -> bool {
        match self {
            BackendSlot::Unsupported(_) => reply == Err::<u32, OpfsErrorCode>(
                OpfsErrorCode::NotFound,
            ),
            BackendSlot::Registered(b) => exists|d: &[u8]|
                d@ == data && #[trigger] call_ensures(B::write, (b, handle, offset, d), reply),
        }
    }

    /// `reply` is an answer that the backend gives to setting the size.
    pub open spec fn truncates(&self, handle: u64, size: u64, reply: Result<(), OpfsErrorCode>) -> bool {
        match self {
            BackendSlot::Unsupported(_) => reply == Err::<(), OpfsErrorCode>(
                OpfsErrorCode::NotFound,
            ),
            BackendSlot::Registered(b) => call_ensures(B::truncate, (b, handle, size), reply),
        }
    }

    /// `reply` is an answer that the backend gives to a sync.
    pub open spec fn syncs(&self, handle: u64, reply: Result<(), OpfsErrorCode>) -> bool {
        match self {
            BackendSlot::Unsupported(_) => reply == Err::<(), OpfsErrorCode>(
                OpfsErrorCode::NotFound,
            ),
            BackendSlot::Registered(b) => call_ensures(B::sync, (b, handle), reply),
        }
    }

    /// `reply` is an answer that the backend gives when asked for the size.
    pub open spec fn sizes(&self, handle: u64, reply: Result<u64, OpfsErrorCode>) -> bool {
        match self {
            BackendSlot::Unsupported(_) => reply == Err::<u64, OpfsErrorCode>(
                OpfsErrorCode::NotFound,
            ),
            BackendSlot::Registered(b) => call_ensures(B::size, (b, handle), reply),
        }
    }

    /// `reply` is an answer that the backend gives to taking a handle back.
    pub open spec fn closes(&self, handle: u64, reply: Result<(), OpfsErrorCode>) -> bool {
        match self {
            BackendSlot::Unsupported(_) => reply == Err::<(), OpfsErrorCode>(
                OpfsErrorCode::NotFound,
            ),
            BackendSlot::Registered(b) => call_ensures(B::close, (b, handle), reply),
        }
    }

    /// `reply` is an answer that the backend gives to deleting `path`.
    pub open spec fn deletes(&self, path: Seq<char>, reply: Result<(), OpfsErrorCode>) -> bool {
        match self {
            BackendSlot::Unsupported(_) => reply == Err::<(), OpfsErrorCode>(
                OpfsErrorCode::NotFound,
            ),
            BackendSlot::Registered(b) => exists|p: &str|
                p@ == path && #[trigger] call_ensures(B::delete, (b, p), reply),
        }
    }
}

impl<B: OpfsBackend> OpfsBackend for BackendSlot<B> {
    fn open(&self, path: &str, create: bool) -> (r: Result<u64, OpfsErrorCode>)
        ensures
            self.opens(path@, create, r),
    {
        match self {
            BackendSlot::Unsupported(b) => b.open(path, create),
            BackendSlot::Registered(b) => {
                let r = b.open(path, create);
                assert(call_ensures(B::open, (b, path, create), r));
                r
            },
        }
    }

    fn read(&self, handle: u64, offset: u64, len: u32) -> (r: Result<Vec<u8>, OpfsErrorCode>)
        ensures
            self.reads(handle, offset, len, r),
    {
        match self {
            BackendSlot::Unsupported(b) => b.read(handle, offset, len),
            BackendSlot::Registered(b) => b.read(handle, offset, len),
        }
    }

    fn write(&self, handle: u64, offset: u64, data: &[u8]) -> (r: Result<u32, OpfsErrorCode>)
        ensures
            self.writes(handle, offset, data@, r),
    {
        match self {
            BackendSlot::Unsupported(b) => b.write(handle, offset, data),
            BackendSlot::Registered(b) => {
                let r = b.write(handle, offset, data);
                assert(call_ensures(B::write, (b, handle, offset, data), r));
                r
            },
        }
    }

    fn truncate(&self, handle: u64, size: u64) -> (r: Result<(), OpfsErrorCode>)
        ensures
            self.truncates(handle, size, r),
    {
        match self {
            BackendSlot::Unsupported(b) => b.truncate(handle, size),
            BackendSlot::Registered(b) => b.truncate(handle, size),
        }
    }

    fn sync(&self, handle: u64) -> (r: Result<(), OpfsErrorCode>)
        ensures
            self.syncs(handle, r),
    {
        match self {
            BackendSlot::Unsupported(b) => b.sync(handle),
            BackendSlot::Registered(b) => b.sync(handle),
        }
    }

    fn size(&self, handle: u64) -> (r: Result<u64, OpfsErrorCode>)
        ensures
            self.sizes(handle, r),
    {
        match self {
            BackendSlot::Unsupported(b) => b.size(handle),
            BackendSlot::Registered(b) => b.size(handle),
        }
    }

    fn close(&self, handle: u64) -> (r: Result<(), OpfsErrorCode>)
        ensures
            self.closes(handle, r),
    {
        match self {
            BackendSlot::Unsupported(b) => b.close(handle),
            BackendSlot::Registered(b) => b.close(handle),
        }
    }

    fn delete(&self, path: &str) -> (r: Result<(), OpfsErrorCode>)
        ensures
            self.deletes(path@, r),
    {
        match self {
            BackendSlot::Unsupported(b) => b.delete(path),
            BackendSlot::Registered(b) => {
                let r = b.delete(path);
                assert(call_ensures(B::delete, (b, path), r));
                r
            },
        }
    }
}

/// The engine's code for an answer that carries nothing on success.
pub open spec fn unit_code(reply: Result<(), OpfsErrorCode>) -> i32 {
    match reply {
        Ok(()) => SQLITE_OK,
        Err(e) => sqlite_code(e),
    }
}

/// The engine's code for an answer that carries nothing on success.
pub fn unit_outcome(reply: Result<(), OpfsErrorCode>) -> (r: i32)
    ensures
        r == unit_code(reply),
{
    match reply {
        Ok(()) => SQLITE_OK,
        Err(e) => e.to_sqlite(),
    }
}

/// What a read comes to: `after` is what the buffer `before` holds then, and
/// `rc` the engine's code. Missing bytes are zeros, and superfluous ones ignored.
pub open spec fn read_code(reply: Result<Vec<u8>, OpfsErrorCode>, before: Seq<u8>, after: Seq<u8>, rc: i32) -> bool {
    match reply {
        Ok(bytes) => {
            &&& after == window(bytes@, 0, before.len())
            &&& rc == if bytes@.len() < before.len() {
                SQLITE_IOERR_SHORT_READ
            } else {
                SQLITE_OK
            }
        },
        Err(e) => after == before && rc == sqlite_code(e),
    }
}

/// Puts the backend's answer to a read into `buf`.
pub fn read_outcome(reply: Result<Vec<u8>, OpfsErrorCode>, buf: &mut [u8]) -> (r: i32)
    ensures
        final(buf)@.len() == old(buf)@.len(),
        read_code(reply, old(buf)@, final(buf)@, r),
{
    match reply {
        Ok(bytes) => {
            let want: usize = buf.len();
            let got: usize = bytes.len();
            let copy: usize = if got < want {
                got
            } else {
                want
            };
            copy_range(buf, 0, bytes.as_slice(), 0, copy);
            if got < want {
                fill_zero(buf, copy, want - copy);
                assert(buf@ =~= window(bytes@, 0, old(buf)@.len()));
                SQLITE_IOERR_SHORT_READ
            } else {
                assert(buf@ =~= window(bytes@, 0, old(buf)@.len()));
                SQLITE_OK
            }
        },
        Err(e) => e.to_sqlite(),
    }
}

/// The engine's code for the answer to a write of `len` bytes: writing less is a
/// failure.
pub open spec fn write_code(reply: Result<u32, OpfsErrorCode>, len: nat) -> i32 {
    match reply {
        Ok(n) => if n == len {
            SQLITE_OK
        } else {
            SQLITE_IOERR_WRITE
        },
        Err(e) => sqlite_code(e),
    }
}

/// The engine's code for the answer to a write of `len` bytes.
pub fn write_outcome(reply: Result<u32, OpfsErrorCode>, len: usize) -> (r: i32)
    ensures
        r == write_code(reply, len as nat),
{
    match reply {
        Ok(n) => {
            if n as u64 == len as u64 {
                SQLITE_OK
            } else {
                SQLITE_IOERR_WRITE
            }
        },
        Err(e) => e.to_sqlite(),
    }
}

/// The size, or the engine's code, for the answer to a request for the size.
pub open spec fn size_code(reply: Result<u64, OpfsErrorCode>) -> Result<i64, i32> {
    match reply {
        Ok(n) => Ok(n as i64),
        Err(e) => Err(sqlite_code(e)),
    }
}

/// The size, or the engine's code, for the answer to a request for the size.
pub fn size_outcome(reply: Result<u64, OpfsErrorCode>) -> (r: Result<i64, i32>)
    ensures
        r == size_code(reply),
{
    match reply {
        Ok(n) => Ok(n as i64),
        Err(e) => Err(e.to_sqlite()),
    }
}

/// Whether a file exists, by the answer to opening it: where the backend fails
/// otherwise than by not finding it, it exists if it was `seen`.
pub open spec fn exists_by(reply: Result<u64, OpfsErrorCode>, seen: bool) -> bool {
    match reply {
        Ok(_) => true,
        Err(OpfsErrorCode::NotFound) => false,
        Err(_) => seen,
    }
}

/// Whether a file exists, by the answer to opening it.
pub fn access_outcome(reply: &Result<u64, OpfsErrorCode>, seen: bool) -> (r: bool)
    ensures
        r == exists_by(*reply, seen),
{
    match reply {
        Ok(_) => true,
        Err(OpfsErrorCode::NotFound) => false,
        Err(_) => seen,
    }
}

/// An open file.
pub struct OpfsFile {
    handle: u64,
    name: String,
    delete_on_close: bool,
    lock_level: i32,
}

/// An open file, as the model sees it.
pub struct OpfsHandle {
    pub handle: u64,
    pub name: Seq<char>,
    pub delete_on_close: bool,
    pub lock_level: i32,
}

/// The model of the file system: the names of the files it opened, its open
/// files, and the number of the next synthetic name.
#[verifier::ext_equal]
pub struct OpfsModel {
    pub seen: Set<Seq<char>>,
    pub handles: Map<usize, OpfsHandle>,
    pub temp_counter: u64,
}

/// The synthetic name with number `n`.
pub open spec fn temp_name(n: u64) -> Seq<char> {
    "/__opfs_tmp_"@ + decimal(n as nat)
}

impl OpfsModel {
    /// The file opened for `path`: its name and whether it goes when it is
    /// closed. Without a path it is a temporary file.
    pub open spec fn target(self, path: Option<Seq<u8>>, flags: i32) -> (Seq<char>, bool) {
        match path {
            None => (temp_name(self.temp_counter), true),
            Some(b) => (decode_utf8(b), has_flag(flags, SQLITE_OPEN_DELETEONCLOSE)),
        }
    }

    /// A synthetic name was used up, where there is no path.
    pub open spec fn named(self, path: Option<Seq<u8>>) -> OpfsModel {
        OpfsModel {
            temp_counter: if path is None {
                self.temp_counter.wrapping_add(1)
            } else {
                self.temp_counter
            },
            ..self
        }
    }

    /// The handle `h` is open on the file `name`, which the backend knows as
    /// `handle`, without a lock.
    pub open spec fn opened(self, h: usize, handle: u64, name: Seq<char>, delete_on_close: bool) -> OpfsModel {
        OpfsModel {
            seen: self.seen.insert(name),
            handles: self.handles.insert(
                h,
                OpfsHandle { handle, name, delete_on_close, lock_level: SQLITE_LOCK_NONE },
            ),
            ..self
        }
    }

    /// The handle `h` is closed.
    pub open spec fn closed(self, h: usize) -> OpfsModel {
        OpfsModel {
            seen: if self.handles[h].delete_on_close {
                self.seen.remove(self.handles[h].name)
            } else {
                self.seen
            },
            handles: self.handles.remove(h),
            ..self
        }
    }

    /// The lock level of the handle `h` is `level`.
    pub open spec fn locked(self, h: usize, level: i32) -> OpfsModel {
        OpfsModel {
            handles: self.handles.insert(
                h,
                OpfsHandle { lock_level: level, ..self.handles[h] },
            ),
            ..self
        }
    }
}

/// The file system.
pub struct OpfsVfs<B> {
    backend: BackendSlot<B>,
    seen: NameTable<()>,
    handles: Vec<Option<OpfsFile>>,
    temp_counter: u64,
}

spec fn handle_model(f: OpfsFile) -> OpfsHandle {
    OpfsHandle {
        handle: f.handle,
        name: f.name@,
        delete_on_close: f.delete_on_close,
        lock_level: f.lock_level,
    }
}

impl<B> View for OpfsVfs<B> {
    type V = OpfsModel;

    closed spec fn view(&self) -> OpfsModel {
        OpfsModel {
            seen: self.seen@.dom(),
            handles: Map::new(
                |h: usize| h < self.handles@.len() && self.handles@[h as int] is Some,
                |h: usize| handle_model(self.handles@[h as int]->0),
            ),
            temp_counter: self.temp_counter,
        }
    }
}

impl<B: OpfsBackend> OpfsVfs<B> {
    /// The file system's invariant.
    pub closed spec fn wf(&self) -> bool {
        self.seen.wf()
    }

    /// The backend in use.
    pub closed spec fn backend(&self) -> BackendSlot<B> {
        self.backend
    }

    /// A file system without files, and without a backend of its own.
    pub fn new() -> (r: Self)
        ensures
            r.wf(),
            r.backend() is Unsupported,
            r@.seen == Set::<Seq<char>>::empty(),
            r@.handles == Map::<usize, OpfsHandle>::empty(),
            r@.temp_counter == 0,
    {
        let r = OpfsVfs {
            backend: BackendSlot::Unsupported(UnsupportedBackend),
            seen: NameTable::new(),
            handles: Vec::new(),
            temp_counter: 0,
        };
        proof {
            assert(r@.seen =~= Set::<Seq<char>>::empty());
            assert(r@.handles =~= Map::<usize, OpfsHandle>::empty());
        }
        r
    }

    /// Registers the backend. Only the first registration takes effect.
    pub fn register_backend(&mut self, backend: B)
        requires
            old(self).wf(),
        ensures
            final(self).wf(),
            final(self)@ == old(self)@,
            final(self).backend() == if old(self).backend() is Registered {
                old(self).backend()
            } else {
                BackendSlot::Registered(backend)
            },
    {
        match &self.backend {
            BackendSlot::Registered(_) => {
                return;
            },
            BackendSlot::Unsupported(_) => {},
        }
        self.backend = BackendSlot::Registered(backend);
    }

    /// Opens the file at `path`, or a temporary one without a path. The result
    /// is the handle, or one of the engine's codes.
    pub fn vfs_open(&mut self, path: Option<&[u8]>, flags: i32) -> (r: Result<usize, i32>)
        requires
            old(self).wf(),
        ensures
            final(self).wf(),
            final(self).backend() == old(self).backend(),
            ({
                let m = old(self)@;
                let bytes = path_bytes(path);
                if path is Some && !valid_utf8(path->0@) {
                    r == Err::<usize, i32>(SQLITE_IOERR) && final(self)@ == m
                } else {
                    let (name, delete_on_close) = m.target(bytes, flags);
                    exists|reply: Result<u64, OpfsErrorCode>|
                        {
                            &&& #[trigger] old(self).backend().opens(
                                name,
                                has_flag(flags, SQLITE_OPEN_CREATE),
                                reply,
                            )
                            &&& match reply {
                                Ok(handle) => {
                                    &&& r is Ok
                                    &&& !m.handles.contains_key(r->Ok_0)
                                    &&& final(self)@ == m.named(bytes).opened(
                                        r->Ok_0,
                                        handle,
                                        name,
                                        delete_on_close,
                                    )
                                },
                                Err(e) => {
                                    &&& r == Err::<usize, i32>(sqlite_code(e))
                                    &&& final(self)@ == m.named(bytes)
                                },
                            }
                        }
                }
            }),
    {
        let explicit_delete: bool = (flags & SQLITE_OPEN_DELETEONCLOSE) != 0;
        let create: bool = (flags & SQLITE_OPEN_CREATE) != 0;
        let name: String;
        let delete_on_close: bool;
        match path {
            None => {
                let mut s = String::from_str("/__opfs_tmp_");
                push_decimal(&mut s, self.temp_counter);
                self.temp_counter = self.temp_counter.wrapping_add(1);
                name = s;
                delete_on_close = true;
            },
            Some(p) => match utf8_text(p) {
                Some(s) => {
                    name = s.to_owned();
                    delete_on_close = explicit_delete;
                },
                None => {
                    return Err(SQLITE_IOERR);
                },
            },
        }
        let ghost m = old(self)@;
        let ghost m1 = self@;
        let ghost nm = name@;
        proof {
            assert(m1.handles =~= m.handles);
            assert(m1 =~= m.named(path_bytes(path)));
            assert(m.target(path_bytes(path), flags) == (nm, delete_on_close));
        }
        let reply = self.backend.open(name.as_str(), create);
        assert(old(self).backend().opens(
            m.target(path_bytes(path), flags).0,
            has_flag(flags, SQLITE_OPEN_CREATE),
            reply,
        ));
        match reply {
            Ok(handle) => {
                self.seen.insert(name.clone(), ());
                let h: usize = self.handles.len();
                self.handles.push(
                    Some(OpfsFile { handle, name, delete_on_close, lock_level: SQLITE_LOCK_NONE }),
                );
                proof {
                    assert(self@.seen =~= m1.seen.insert(nm));
                    assert(self@.handles =~= m1.opened(h, handle, nm, delete_on_close).handles);
                    assert(self@ =~= m1.opened(h, handle, nm, delete_on_close));
                }
                Ok(h)
            },
            Err(e) => Err(e.to_sqlite()),
        }
    }

    /// The open file behind the handle `h`.
    fn file(&self, h: usize) -> (r: Option<&OpfsFile>)
        ensures
            match r {
                Some(f) => self@.handles.contains_key(h) && handle_model(*f) == self@.handles[h],
                None => !self@.handles.contains_key(h),
            },
    {
        if h >= self.handles.len() {
            return None;
        }
        match &self.handles[h] {
            Some(f) => Some(f),
            None => None,
        }
    }

    /// Closes the handle `h`; nothing happens for one that is not open. The
    /// backend takes the file back, and deletes it where it goes on close; its
    /// answers are not looked at.
    pub fn io_close(&mut self, h: usize) -> (r: i32)
        requires
            old(self).wf(),
        ensures
            final(self).wf(),
            final(self).backend() == old(self).backend(),
            r == SQLITE_OK,
            final(self)@ == if old(self)@.handles.contains_key(h) {
                old(self)@.closed(h)
            } else {
                old(self)@
            },
            old(self)@.handles.contains_key(h) ==> {
                let f = old(self)@.handles[h];
                &&& exists|reply: Result<(), OpfsErrorCode>| #[trigger]
                    old(self).backend().closes(f.handle, reply)
                &&& f.delete_on_close ==> exists|reply: Result<(), OpfsErrorCode>| #[trigger]
                    old(self).backend().deletes(f.name, reply)
            },
    {
        if h >= self.handles.len() {
            return SQLITE_OK;
        }
        let ghost m = self@;
        let taken: Option<OpfsFile> = self.handles[h].take();
        proof {
            assert(self@.handles =~= m.handles.remove(h));
        }
        match taken {
            Some(f) => {
                assert(m.handles.contains_key(h));
                let closed = self.backend.close(f.handle);
                assert(old(self).backend().closes(m.handles[h].handle, closed));
                if f.delete_on_close {
                    let deleted = self.backend.delete(f.name.as_str());
                    assert(old(self).backend().deletes(m.handles[h].name, deleted));
                    self.seen.remove(f.name.as_str());
                    assert(self@.seen =~= m.seen.remove(f.name@));
                    assert(self@.handles =~= m.handles.remove(h));
                }
                assert(self@ =~= m.closed(h));
            },
            None => {
                assert(self@.handles =~= m.handles);
                assert(self@ =~= m);
            },
        }
        SQLITE_OK
    }

    /// Reads from an open file into `buf`, which may not be empty.
    pub fn io_read(&self, h: usize, buf: &mut [u8], ofst: i64) -> (r: i32)
        requires
            old(buf)@.len() <= u32::MAX,
        ensures
            final(buf)@.len() == old(buf)@.len(),
            if !self@.handles.contains_key(h) || old(buf)@.len() == 0 {
                r == SQLITE_IOERR && final(buf)@ == old(buf)@
            } else {
                exists|reply: Result<Vec<u8>, OpfsErrorCode>|
                    {
                        &&& #[trigger] self.backend().reads(
                            self@.handles[h].handle,
                            ofst as u64,
                            old(buf)@.len() as u32,
                            reply,
                        )
                        &&& read_code(reply, old(buf)@, final(buf)@, r)
                    }
            },
    {
        if buf.len() == 0 {
            return SQLITE_IOERR;
        }
        match self.file(h) {
            Some(f) => {
                let reply = self.backend.read(f.handle, ofst as u64, buf.len() as u32);
                assert(self.backend().reads(
                    self@.handles[h].handle,
                    ofst as u64,
                    buf@.len() as u32,
                    reply,
                ));
                read_outcome(reply, buf)
            },
            None => SQLITE_IOERR,
        }
    }

    /// Writes `buf`, which may not be empty, to an open file.
    pub fn io_write(&self, h: usize, buf: &[u8], ofst: i64) -> (r: i32)
        ensures
            if !self@.handles.contains_key(h) || buf@.len() == 0 {
                r == SQLITE_IOERR
            } else {
                exists|reply: Result<u32, OpfsErrorCode>|
                    {
                        &&& #[trigger] self.backend().writes(
                            self@.handles[h].handle,
                            ofst as u64,
                            buf@,
                            reply,
                        )
                        &&& r == write_code(reply, buf@.len())
                    }
            },
    {
        if buf.len() == 0 {
            return SQLITE_IOERR;
        }
        match self.file(h) {
            Some(f) => {
                let reply = self.backend.write(f.handle, ofst as u64, buf);
                assert(self.backend().writes(self@.handles[h].handle, ofst as u64, buf@, reply));
                write_outcome(reply, buf.len())
            },
            None => SQLITE_IOERR,
        }
    }

    /// Sets the size of an open file.
    pub fn io_truncate(&self, h: usize, size: i64) -> (r: i32)
        ensures
            if !self@.handles.contains_key(h) {
                r == SQLITE_IOERR
            } else {
                exists|reply: Result<(), OpfsErrorCode>| #[trigger]
                    self.backend().truncates(self@.handles[h].handle, size as u64, reply) && r
                        == unit_code(reply)
            },
    {
        match self.file(h) {
            Some(f) => {
                let reply = self.backend.truncate(f.handle, size as u64);
                assert(self.backend().truncates(self@.handles[h].handle, size as u64, reply));
                unit_outcome(reply)
            },
            None => SQLITE_IOERR,
        }
    }

    /// Makes what was written to an open file durable.
    pub fn io_sync(&self, h: usize) -> (r: i32)
        ensures
            if !self@.handles.contains_key(h) {
                r == SQLITE_IOERR
            } else {
                exists|reply: Result<(), OpfsErrorCode>| #[trigger]
                    self.backend().syncs(self@.handles[h].handle, reply) && r == unit_code(reply)
            },
    {
        match self.file(h) {
            Some(f) => {
                let reply = self.backend.sync(f.handle);
                assert(self.backend().syncs(self@.handles[h].handle, reply));
                unit_outcome(reply)
            },
            None => SQLITE_IOERR,
        }
    }

    /// The size of an open file.
    pub fn io_file_size(&self, h: usize) -> (r: Result<i64, i32>)
        ensures
            if !self@.handles.contains_key(h) {
                r == Err::<i64, i32>(SQLITE_IOERR)
            } else {
                exists|reply: Result<u64, OpfsErrorCode>| #[trigger]
                    self.backend().sizes(self@.handles[h].handle, reply) && r == size_code(reply)
            },
    {
        match self.file(h) {
            Some(f) => {
                let reply = self.backend.size(f.handle);
                assert(self.backend().sizes(self@.handles[h].handle, reply));
                size_outcome(reply)
            },
            None => Err(SQLITE_IOERR),
        }
    }

    /// Raises the lock level of an open file to `level`; it is never lowered.
    pub fn io_lock(&mut self, h: usize, level: i32) -> (r: i32)
        requires
            old(self).wf(),
        ensures
            final(self).wf(),
            final(self).backend() == old(self).backend(),
            if !old(self)@.handles.contains_key(h) {
                r == SQLITE_IOERR && final(self)@ == old(self)@
            } else {
                let now = old(self)@.handles[h].lock_level;
                r == SQLITE_OK && final(self)@ == old(self)@.locked(
                    h,
                    if level > now {
                        level
                    } else {
                        now
                    },
                )
            },
    {
        if h >= self.handles.len() {
            return SQLITE_IOERR;
        }
        let ghost m = self@;
        match &mut self.handles[h] {
            Some(f) => {
                if level > f.lock_level {
                    f.lock_level = level;
                }
            },
            None => {
                return SQLITE_IOERR;
            },
        }
        proof {
            let now = m.handles[h].lock_level;
            assert(m.handles.contains_key(h));
            assert(self@.handles =~= m.locked(
                h,
                if level > now {
                    level
                } else {
                    now
                },
            ).handles);
        }
        SQLITE_OK
    }

    /// Lowers the lock level of an open file to `level`; it is never raised.
    pub fn io_unlock(&mut self, h: usize, level: i32) -> (r: i32)
        requires
            old(self).wf(),
        ensures
            final(self).wf(),
            final(self).backend() == old(self).backend(),
            if !old(self)@.handles.contains_key(h) {
                r == SQLITE_IOERR && final(self)@ == old(self)@
            } else {
                let now = old(self)@.handles[h].lock_level;
                r == SQLITE_OK && final(self)@ == old(self)@.locked(
                    h,
                    if level < now {
                        level
                    } else {
                        now
                    },
                )
            },
    {
        if h >= self.handles.len() {
            return SQLITE_IOERR;
        }
        let ghost m = self@;
        match &mut self.handles[h] {
            Some(f) => {
                if level < f.lock_level {
                    f.lock_level = level;
                }
            },
            None => {
                return SQLITE_IOERR;
            },
        }
        proof {
            let now = m.handles[h].lock_level;
            assert(m.handles.contains_key(h));
            assert(self@.handles =~= m.locked(
                h,
                if level < now {
                    level
                } else {
                    now
                },
            ).handles);
        }
        SQLITE_OK
    }

    /// Answers the requests that are particular to a file system: only the lock
    /// level is known.
    pub fn io_file_control(&self, h: usize, op: i32) -> (r: Result<i32, i32>)
        ensures
            r == if op != SQLITE_FCNTL_LOCKSTATE {
                Err::<i32, i32>(SQLITE_NOTFOUND)
            } else if self@.handles.contains_key(h) {
                Ok(self@.handles[h].lock_level)
            } else {
                Err(SQLITE_IOERR)
            },
    {
        if op == SQLITE_FCNTL_LOCKSTATE {
            return match self.file(h) {
                Some(f) => Ok(f.lock_level),
                None => Err(SQLITE_IOERR),
            };
        }
        Err(SQLITE_NOTFOUND)
    }

    /// Deletes the file at `path`.
    pub fn vfs_delete(&mut self, path: &[u8]) -> (r: i32)
        requires
            old(self).wf(),
        ensures
            final(self).wf(),
            final(self).backend() == old(self).backend(),
            if valid_utf8(path@) {
                let name = decode_utf8(path@);
                &&& final(self)@ == (OpfsModel { seen: old(self)@.seen.remove(name), ..old(self)@ })
                &&& exists|reply: Result<(), OpfsErrorCode>| #[trigger]
                    old(self).backend().deletes(name, reply) && r == unit_code(reply)
            } else {
                r == SQLITE_IOERR && final(self)@ == old(self)@
            },
    {
        match utf8_text(path) {
            Some(name) => {
                self.seen.remove(name);
                proof {
                    assert(self@.seen =~= old(self)@.seen.remove(name@));
                    assert(self@.handles =~= old(self)@.handles);
                }
                let reply = self.backend.delete(name);
                assert(self.backend().deletes(name@, reply));
                unit_outcome(reply)
            },
            None => SQLITE_IOERR,
        }
    }

    /// Whether there is a file at `path`, found out by opening it. What was
    /// opened is closed again.
    pub fn vfs_access(&self, path: &[u8]) -> (r: Result<bool, i32>)
        requires
            self.wf(),
        ensures
            if valid_utf8(path@) {
                let name = decode_utf8(path@);
                exists|reply: Result<u64, OpfsErrorCode>|
                    {
                        &&& #[trigger] self.backend().opens(name, false, reply)
                        &&& r == Ok::<bool, i32>(exists_by(reply, self@.seen.contains(name)))
                        &&& reply is Ok ==> exists|done: Result<(), OpfsErrorCode>| #[trigger]
                            self.backend().closes(reply->Ok_0, done)
                    }
            } else {
                r == Err::<bool, i32>(SQLITE_IOERR)
            },
    {
        match utf8_text(path) {
            Some(name) => {
                let reply = self.backend.open(name, false);
                assert(self.backend().opens(name@, false, reply));
                match &reply {
                    Ok(handle) => {
                        let done = self.backend.close(*handle);
                        assert(self.backend().closes(*handle, done));
                    },
                    Err(_) => {},
                }
                Ok(access_outcome(&reply, self.seen.contains(name)))
            },
            None => Err(SQLITE_IOERR),
        }
    }
}

/// The name to open a database with to reach this file system.
pub fn name() -> (r: &'static str)
    ensures
        r@ == "opfs"@,
{
    "opfs"
}

/// Settles the registration of the file system by the engine's answer.
pub fn install(gate: &mut InstallGate, rc: i32) -> (r: Result<(), InstallError>)
    requires
        old(gate)@,
    ensures
        final(gate)@ == (rc == SQLITE_OK),
        match r {
            Ok(()) => rc == SQLITE_OK,
            Err(e) => rc != SQLITE_OK && e.code == rc && e.message@
                == "sqlite3_vfs_register failed for opfs vfs"@,
        },
{
    gate.finish(rc, "sqlite3_vfs_register failed for opfs vfs")
}

/// Whether the file system is registered.
pub fn is_installed(gate: &InstallGate) -> (r: bool)
    ensures
        r == gate@,
{
    gate.is_installed()
}

/// What the engine may rely on: appends are safe, and writes happen in order.
pub fn io_device_characteristics() -> (r: i32)
    ensures
        r == SQLITE_IOCAP_SAFE_APPEND | SQLITE_IOCAP_SEQUENTIAL,
{
    SQLITE_IOCAP_SAFE_APPEND | SQLITE_IOCAP_SEQUENTIAL
}

/// The classes of failure as the browser host names them.
#[derive(Copy, Clone, Debug, PartialEq, Eq, Structural)]
pub enum HostOpfsErrorCode {
    Io,
    NotFound,
    Full,
    Invalid,
}

/// The backend over the browser host's files. All its state is the host's.
pub struct WitOpfsBackend;

impl WitOpfsBackend {
    /// The host's failure, as a backend's.
    pub fn map_err(code: HostOpfsErrorCode) -> (r: OpfsErrorCode)
        ensures
            r == match code {
                HostOpfsErrorCode::Io => OpfsErrorCode::Io,
                HostOpfsErrorCode::NotFound => OpfsErrorCode::NotFound,
                HostOpfsErrorCode::Full => OpfsErrorCode::Full,
                HostOpfsErrorCode::Invalid => OpfsErrorCode::Invalid,
            },
    {
        match code {
            HostOpfsErrorCode::Io => OpfsErrorCode::Io,
            HostOpfsErrorCode::NotFound => OpfsErrorCode::NotFound,
            HostOpfsErrorCode::Full => OpfsErrorCode::Full,
            HostOpfsErrorCode::Invalid => OpfsErrorCode::Invalid,
        }
    }
}

/// Opening and closing a file leaves the open files as they were, and for a
/// temporary file that was not seen before, the seen names too.
pub proof fn lemma_open_then_close(m: OpfsModel, h: usize, handle: u64, name: Seq<char>, delete_on_close: bool)
    requires
        !m.handles.contains_key(h),
        !m.seen.contains(name),
    ensures
        ({
            let n = m.opened(h, handle, name, delete_on_close).closed(h);
            &&& n.handles == m.handles
            &&& n.seen == if delete_on_close {
                m.seen
            } else {
                m.seen.insert(name)
            }
        }),
{
    let n = m.opened(h, handle, name, delete_on_close).closed(h);
    assert(n.handles =~= m.handles);
    if delete_on_close {
        assert(n.seen =~= m.seen);
    }
}

} // verus!
