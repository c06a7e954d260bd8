//! The file system with a backend.

use libsqlite3_sys as ffi;
use parking_lot::Mutex;
use sqlite_wasm::install::InstallGate;
use sqlite_wasm::vfs::opfs::{
    self, access_outcome, install, io_device_characteristics, is_installed, read_outcome,
    size_outcome, unit_outcome, write_outcome, HostOpfsErrorCode, OpfsBackend, OpfsErrorCode,
    OpfsVfs, WitOpfsBackend,
};
use std::collections::HashMap;
use std::sync::atomic::{AtomicU64, Ordering};

/// A backend in memory.
struct MemBackend {
    files: Mutex<HashMap<u64, Vec<u8>>>,
    paths: Mutex<HashMap<String, u64>>,
    next: AtomicU64,
}

impl MemBackend {
    fn new() -> Self {
        Self {
            files: Mutex::new(HashMap::new()),
            paths: Mutex::new(HashMap::new()),
            next: AtomicU64::new(1),
        }
    }
}

impl OpfsBackend for MemBackend {
    fn open(&self, path: &str, create: bool) -> Result<u64, OpfsErrorCode> {
        let mut paths = self.paths.lock();
        if let Some(&h) = paths.get(path) {
            return Ok(h);
        }
        if !create {
            return Err(OpfsErrorCode::NotFound);
        }
        let h = self.next.fetch_add(1, Ordering::Relaxed);
        paths.insert(path.to_string(), h);
        self.files.lock().insert(h, Vec::new());
        Ok(h)
    }
    fn read(&self, h: u64, off: u64, len: u32) -> Result<Vec<u8>, OpfsErrorCode> {
        let files = self.files.lock();
        let bytes = files.get(&h).ok_or(OpfsErrorCode::Invalid)?;
        let off = off as usize;
        let len = len as usize;
        if off >= bytes.len() {
            return Ok(Vec::new());
        }
        let end = (off + len).min(bytes.len());
        Ok(bytes[off..end].to_vec())
    }
    fn write(&self, h: u64, off: u64, data: &[u8]) -> Result<u32, OpfsErrorCode> {
        let mut files = self.files.lock();
        let bytes = files.get_mut(&h).ok_or(OpfsErrorCode::Invalid)?;
        let off = off as usize;
        let end = off + data.len();
        if end > bytes.len() {
            bytes.resize(end, 0);
        }
        bytes[off..end].copy_from_slice(data);
        Ok(data.len() as u32)
    }
    fn truncate(&self, h: u64, size: u64) -> Result<(), OpfsErrorCode> {
        self.files.lock().get_mut(&h).ok_or(OpfsErrorCode::Invalid)?.resize(size as usize, 0);
        Ok(())
    }
    fn sync(&self, _h: u64) -> Result<(), OpfsErrorCode> {
        Ok(())
    }
    fn size(&self, h: u64) -> Result<u64, OpfsErrorCode> {
        Ok(self.files.lock().get(&h).map(|v| v.len() as u64).unwrap_or(0))
    }
    fn close(&self, _h: u64) -> Result<(), OpfsErrorCode> {
        Ok(())
    }
    fn delete(&self, path: &str) -> Result<(), OpfsErrorCode> {
        if let Some(h) = self.paths.lock().remove(path) {
            self.files.lock().remove(&h);
        }
        Ok(())
    }
}

fn test_vfs() -> OpfsVfs<MemBackend> {
    let mut vfs = OpfsVfs::new();
    vfs.register_backend(MemBackend::new());
    vfs
}

#[test]
fn opfs_open_write_read_close_round_trip() {
    let mut vfs = test_vfs();
    let file =
        vfs.vfs_open(Some(b"/probe.db"), ffi::SQLITE_OPEN_READWRITE | ffi::SQLITE_OPEN_CREATE);
    assert!(file.is_ok());
    let file = file.unwrap();
    let payload = b"hello opfs";
    let rc = vfs.io_write(file, payload, 0);
    assert_eq!(rc, ffi::SQLITE_OK);
    let mut readback = vec![0u8; payload.len()];
    let rc = vfs.io_read(file, &mut readback, 0);
    assert_eq!(rc, ffi::SQLITE_OK);
    assert_eq!(&readback, payload);
    let size = vfs.io_file_size(file);
    assert!(size.is_ok());
    assert_eq!(size.unwrap() as usize, payload.len());
    let rc = vfs.io_close(file);
    assert_eq!(rc, ffi::SQLITE_OK);
}

#[test]
fn missing_file_open_without_create_returns_cantopen() {
    let mut vfs = test_vfs();
    let rc = vfs.vfs_open(Some(b"/nope.db"), ffi::SQLITE_OPEN_READWRITE);
    assert_eq!(rc, Err(ffi::SQLITE_CANTOPEN));
}

#[test]
fn without_a_backend_nothing_opens() {
    let mut vfs = OpfsVfs::<MemBackend>::new();
    assert_eq!(
        vfs.vfs_open(Some(b"/x"), ffi::SQLITE_OPEN_CREATE),
        Err(ffi::SQLITE_CANTOPEN)
    );
    assert_eq!(vfs.vfs_access(b"/x"), Ok(false));
    assert_eq!(vfs.vfs_delete(b"/x"), ffi::SQLITE_CANTOPEN);
}

#[test]
fn only_the_first_backend_counts() {
    let mut vfs = test_vfs();
    let f = vfs.vfs_open(Some(b"/x"), ffi::SQLITE_OPEN_CREATE).unwrap();
    vfs.io_write(f, b"abc", 0);
    vfs.register_backend(MemBackend::new());
    assert_eq!(vfs.vfs_access(b"/x"), Ok(true));
    let mut buf = [1u8; 5];
    assert_eq!(vfs.io_read(f, &mut buf, 0), ffi::SQLITE_IOERR_SHORT_READ);
    assert_eq!(&buf, b"abc\0\0");
    assert_eq!(vfs.io_truncate(f, 1), 0);
    assert_eq!(vfs.io_sync(f), 0);
    assert_eq!(vfs.io_file_size(f), Ok(1));
}

#[test]
fn temporary_files_are_deleted_on_close() {
    let mut vfs = test_vfs();
    let t = vfs.vfs_open(None, ffi::SQLITE_OPEN_CREATE).unwrap();
    assert_eq!(vfs.vfs_access(b"/__opfs_tmp_0"), Ok(true));
    vfs.io_close(t);
    assert_eq!(vfs.vfs_access(b"/__opfs_tmp_0"), Ok(false));
    let d = vfs
        .vfs_open(Some(b"/d"), ffi::SQLITE_OPEN_CREATE | ffi::SQLITE_OPEN_DELETEONCLOSE)
        .unwrap();
    vfs.io_close(d);
    assert_eq!(vfs.vfs_access(b"/d"), Ok(false));
    let k = vfs.vfs_open(Some(b"/k"), ffi::SQLITE_OPEN_CREATE).unwrap();
    vfs.io_close(k);
    assert_eq!(vfs.vfs_access(b"/k"), Ok(true));
    assert_eq!(vfs.vfs_delete(b"/k"), 0);
    assert_eq!(vfs.vfs_access(b"/k"), Ok(false));
    assert_eq!(vfs.vfs_open(Some(b"\xff"), 0), Err(ffi::SQLITE_IOERR));
    assert_eq!(vfs.vfs_access(b"\xff"), Err(ffi::SQLITE_IOERR));
    assert_eq!(vfs.vfs_delete(b"\xff"), ffi::SQLITE_IOERR);
}

#[test]
fn lock_state_goes_up_and_down() {
    let mut vfs = test_vfs();
    let f = vfs.vfs_open(Some(b"/x"), ffi::SQLITE_OPEN_CREATE).unwrap();
    assert_eq!(vfs.io_file_control(f, ffi::SQLITE_FCNTL_LOCKSTATE), Ok(0));
    vfs.io_lock(f, 2);
    vfs.io_lock(f, 1);
    assert_eq!(vfs.io_file_control(f, ffi::SQLITE_FCNTL_LOCKSTATE), Ok(2));
    vfs.io_unlock(f, 4);
    assert_eq!(vfs.io_file_control(f, ffi::SQLITE_FCNTL_LOCKSTATE), Ok(2));
    vfs.io_unlock(f, 0);
    assert_eq!(vfs.io_file_control(f, ffi::SQLITE_FCNTL_LOCKSTATE), Ok(0));
    assert_eq!(vfs.io_file_control(f, 5), Err(ffi::SQLITE_NOTFOUND));
    assert_eq!(vfs.io_file_control(9, ffi::SQLITE_FCNTL_LOCKSTATE), Err(ffi::SQLITE_IOERR));
    assert_eq!(vfs.io_lock(9, 1), ffi::SQLITE_IOERR);
    assert_eq!(vfs.io_unlock(9, 1), ffi::SQLITE_IOERR);
    assert_eq!(vfs.io_read(9, &mut [0], 0), ffi::SQLITE_IOERR);
    assert_eq!(vfs.io_write(9, &[0], 0), ffi::SQLITE_IOERR);
    assert_eq!(vfs.io_truncate(9, 0), ffi::SQLITE_IOERR);
    assert_eq!(vfs.io_sync(9), ffi::SQLITE_IOERR);
    assert_eq!(vfs.io_file_size(9), Err(ffi::SQLITE_IOERR));
    assert_eq!(vfs.io_close(9), ffi::SQLITE_OK);
}

#[test]
fn answers_become_codes() {
    assert_eq!(OpfsErrorCode::Io.to_sqlite(), ffi::SQLITE_IOERR);
    assert_eq!(OpfsErrorCode::NotFound.to_sqlite(), ffi::SQLITE_CANTOPEN);
    assert_eq!(OpfsErrorCode::Full.to_sqlite(), ffi::SQLITE_FULL);
    assert_eq!(OpfsErrorCode::Invalid.to_sqlite(), ffi::SQLITE_MISUSE);
    assert_eq!(unit_outcome(Ok(())), ffi::SQLITE_OK);
    assert_eq!(unit_outcome(Err(OpfsErrorCode::Full)), ffi::SQLITE_FULL);
    assert_eq!(write_outcome(Ok(3), 3), ffi::SQLITE_OK);
    assert_eq!(write_outcome(Ok(2), 3), ffi::SQLITE_IOERR_WRITE);
    assert_eq!(write_outcome(Err(OpfsErrorCode::Full), 3), ffi::SQLITE_FULL);
    assert_eq!(size_outcome(Ok(7)), Ok(7));
    assert_eq!(size_outcome(Err(OpfsErrorCode::Io)), Err(ffi::SQLITE_IOERR));
    assert!(access_outcome(&Ok(1), false));
    assert!(!access_outcome(&Err(OpfsErrorCode::NotFound), true));
    assert!(access_outcome(&Err(OpfsErrorCode::Io), true));
    assert!(!access_outcome(&Err(OpfsErrorCode::Io), false));
    let mut buf = [9u8; 2];
    assert_eq!(read_outcome(Ok(vec![1, 2, 3]), &mut buf), ffi::SQLITE_OK);
    assert_eq!(buf, [1, 2]);
    assert_eq!(read_outcome(Err(OpfsErrorCode::Invalid), &mut buf), ffi::SQLITE_MISUSE);
    assert_eq!(buf, [1, 2]);
    assert_eq!(WitOpfsBackend::map_err(HostOpfsErrorCode::Full), OpfsErrorCode::Full);
    assert_eq!(WitOpfsBackend::map_err(HostOpfsErrorCode::NotFound), OpfsErrorCode::NotFound);
}

#[test]
fn opfs_name_and_install() {
    assert_eq!(opfs::name(), "opfs");
    assert_eq!(
        io_device_characteristics(),
        ffi::SQLITE_IOCAP_SAFE_APPEND | ffi::SQLITE_IOCAP_SEQUENTIAL
    );
    let mut gate = InstallGate::new();
    assert!(gate.claim());
    assert_eq!(
        install(&mut gate, 1).unwrap_err().message,
        "sqlite3_vfs_register failed for opfs vfs"
    );
    assert!(!is_installed(&gate));
}
