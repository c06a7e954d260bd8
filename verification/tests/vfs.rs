//! The in-memory file system and its storages.

use libsqlite3_sys as ffi;
use sqlite_wasm::install::DefaultGate;
use sqlite_wasm::slices::SliceCursor;
use sqlite_wasm::vfs::chunks::{cut_chunk, ReadJob, ReadStep, WriteJob, WriteStep, CHUNK_SIZE};
use sqlite_wasm::vfs::multi_memory_storage::{MultiMemoryStorage, SLICE_BYTES};
use sqlite_wasm::vfs::randomness::{vfs_randomness, OPFS_SEED, TVM_SEED};
use sqlite_wasm::vfs::shm::ShmTable;
use sqlite_wasm::vfs::storage::{FileStorage, InProcStorage};
use sqlite_wasm::vfs::tvm::{
    self, install, install_as_default, installed, io_device_characteristics, io_file_control,
    io_sector_size, is_installed, vfs_current_time_int64, vfs_full_pathname, TvmVfs,
};
use sqlite_wasm::vfs::wit_tvm_storage::WitTvmStorage;
use std::collections::HashMap;

type Vfs = TvmVfs<InProcStorage>;

fn fresh() -> Result<InProcStorage, i32> {
    Ok(InProcStorage::new())
}

fn open(vfs: &mut Vfs, path: Option<&str>, flags: i32) -> Result<usize, i32> {
    vfs.vfs_open(path.map(|p| p.as_bytes()), flags, fresh)
}

const RW_CREATE: i32 = ffi::SQLITE_OPEN_READWRITE | ffi::SQLITE_OPEN_CREATE;

#[test]
fn read_then_write_round_trip() {
    let mut s = InProcStorage::new();
    s.write(0, b"hello world").unwrap();
    let mut buf = [0u8; 11];
    s.read(0, &mut buf).unwrap();
    assert_eq!(&buf, b"hello world");
    assert_eq!(s.size(), 11);
}

#[test]
fn write_past_eof_grows_the_file() {
    let mut s = InProcStorage::new();
    s.write(8, b"end").unwrap();
    assert_eq!(s.size(), 11, "write at offset 8 + 3 bytes should grow to 11");
    let mut buf = [0u8; 11];
    s.read(0, &mut buf).unwrap();
    assert_eq!(&buf[..8], &[0u8; 8]);
    assert_eq!(&buf[8..], b"end");
}

#[test]
fn read_past_eof_short_reads() {
    let mut s = InProcStorage::new();
    s.write(0, b"ab").unwrap();
    let mut buf = [0xff; 4];
    let r = s.read(0, &mut buf);
    assert!(r.is_err());
    assert_eq!(r.unwrap_err(), ffi::SQLITE_IOERR_SHORT_READ);
    assert_eq!(&buf, b"ab\0\0", "available bytes preserved, tail zeroed");
}

#[test]
fn truncate_grows_with_zeros_shrinks_in_place() {
    let mut s = InProcStorage::new();
    s.write(0, b"hello").unwrap();
    s.truncate(8).unwrap();
    assert_eq!(s.size(), 8);
    let mut buf = [0xff; 8];
    s.read(0, &mut buf).unwrap();
    assert_eq!(&buf[..5], b"hello");
    assert_eq!(&buf[5..], &[0u8; 3], "grown bytes should be zero");
    s.truncate(3).unwrap();
    assert_eq!(s.size(), 3);
    let mut buf = [0u8; 3];
    s.read(0, &mut buf).unwrap();
    assert_eq!(&buf, b"hel");
}

#[test]
fn diagnostics_start_empty() {
    let mut vfs = Vfs::new();
    vfs.clear_for_tests();
    assert_eq!(vfs.file_count(), 0);
    assert_eq!(vfs.bytes_in_use(), 0);
}

#[test]
fn temp_counter_increments_per_synthetic_name() {
    let mut vfs = Vfs::new();
    vfs.clear_for_tests();
    let a = open(&mut vfs, None, RW_CREATE).unwrap();
    let b = open(&mut vfs, None, RW_CREATE).unwrap();
    assert_ne!(vfs.storage_id(a), vfs.storage_id(b));
    assert_eq!(vfs.vfs_access(b"__tvm_tmp_0"), Ok(true));
    assert_eq!(vfs.vfs_access(b"__tvm_tmp_1"), Ok(true));
    assert_eq!(vfs.vfs_access(b"__tvm_tmp_2"), Ok(false));
    assert_ne!(a, b);
}

#[test]
fn lib_open_write_read_close_round_trip() {
    let mut vfs = Vfs::new();
    vfs.clear_for_tests();
    let file = open(&mut vfs, Some("/probe.db"), RW_CREATE);
    assert!(file.is_ok());
    let file = file.unwrap();
    let payload = b"hello vfs";
    let rc = vfs.io_write(file, payload, 0);
    assert_eq!(rc, ffi::SQLITE_OK);
    let mut readback = vec![0u8; payload.len()];
    let rc = vfs.io_read(file, &mut readback, 0);
    assert_eq!(rc, ffi::SQLITE_OK);
    assert_eq!(&readback, payload);
    let size = vfs.io_file_size(file);
    assert!(size.is_ok());
    assert_eq!(size.unwrap() as usize, payload.len());
    let rc = vfs.io_close(file);
    assert_eq!(rc, ffi::SQLITE_OK);
    assert_eq!(vfs.file_count(), 1);
    assert_eq!(vfs.bytes_in_use(), payload.len() as u64);
}

#[test]
fn temp_file_is_deleted_on_close() {
    let mut vfs = Vfs::new();
    vfs.clear_for_tests();
    let file = open(&mut vfs, None, RW_CREATE);
    assert!(file.is_ok());
    assert_eq!(vfs.file_count(), 1);
    vfs.io_close(file.unwrap());
    assert_eq!(vfs.file_count(), 0, "temp file should be removed on close");
}

#[test]
fn opens_of_one_path_share_storage() {
    let mut vfs = Vfs::new();
    let a = open(&mut vfs, Some("/a"), RW_CREATE).unwrap();
    let b = open(&mut vfs, Some("/a"), ffi::SQLITE_OPEN_READWRITE).unwrap();
    assert_ne!(a, b);
    assert_eq!(vfs.storage_id(a), vfs.storage_id(b));
    assert_eq!(vfs.io_write(a, b"xyz", 2), 0);
    let mut buf = [9u8; 5];
    assert_eq!(vfs.io_read(b, &mut buf, 0), 0);
    assert_eq!(&buf, b"\0\0xyz");
    assert_eq!(vfs.vfs_delete(b"/a"), 0);
    assert_eq!(vfs.file_count(), 0);
    let mut buf = [9u8; 3];
    assert_eq!(vfs.io_read(b, &mut buf, 2), 0, "open files keep what they have");
    assert_eq!(&buf, b"xyz");
    assert_eq!(vfs.io_truncate(b, 1), 0);
    assert_eq!(vfs.io_file_size(a), Ok(1));
    vfs.io_close(a);
    vfs.io_close(b);
    assert_eq!(vfs.io_file_size(a), Err(ffi::SQLITE_IOERR));
}

#[test]
fn open_errors() {
    let mut vfs = Vfs::new();
    assert_eq!(
        open(&mut vfs, Some("/nope"), ffi::SQLITE_OPEN_READWRITE),
        Err(ffi::SQLITE_CANTOPEN)
    );
    assert_eq!(vfs.vfs_open(Some(b"\xff"), RW_CREATE, fresh), Err(ffi::SQLITE_IOERR));
    assert_eq!(vfs.vfs_open(Some(b"/x"), RW_CREATE, || Err(7)), Err(7));
    assert_eq!(vfs.vfs_delete(b"\xff"), ffi::SQLITE_IOERR);
    assert_eq!(vfs.vfs_delete(b"/x"), ffi::SQLITE_OK);
    assert_eq!(vfs.vfs_access(b"\xff"), Err(ffi::SQLITE_IOERR));
    assert_eq!(vfs.file_count(), 0);
    let mut buf = [1u8; 2];
    assert_eq!(vfs.io_read(0, &mut buf, 0), ffi::SQLITE_IOERR);
    assert_eq!(vfs.io_write(0, b"x", 0), ffi::SQLITE_IOERR);
    assert_eq!(vfs.io_truncate(0, 0), ffi::SQLITE_IOERR);
    let f = open(&mut vfs, Some("/x"), RW_CREATE).unwrap();
    assert_eq!(vfs.io_read(f, &mut [], 0), ffi::SQLITE_IOERR);
    assert_eq!(vfs.io_write(f, &[], 0), ffi::SQLITE_IOERR);
    assert_eq!(vfs.io_read(f, &mut buf, 0), ffi::SQLITE_IOERR_SHORT_READ);
    assert_eq!(buf, [0, 0]);
    buf.fill(7);
    assert_eq!(vfs.io_read(f, &mut buf, -1), ffi::SQLITE_IOERR_SHORT_READ);
    assert_eq!(buf, [0, 0]);
}

#[test]
fn files_with_different_names_are_apart() {
    let mut vfs = Vfs::new();
    let a = open(&mut vfs, Some("/a"), RW_CREATE).unwrap();
    let b = open(&mut vfs, Some("/b"), RW_CREATE).unwrap();
    assert_ne!(vfs.storage_id(a), vfs.storage_id(b));
    assert_eq!(vfs.io_write(a, b"aaaa", 0), 0);
    assert_eq!(vfs.io_write(b, b"bb", 0), 0);
    assert_eq!(vfs.vfs_delete(b"/a"), 0);
    let c = open(&mut vfs, Some("/a"), RW_CREATE).unwrap();
    assert_ne!(vfs.storage_id(a), vfs.storage_id(c), "a deleted file comes back empty");
    assert_eq!(vfs.io_file_size(c), Ok(0));
    let mut buf = [0u8; 4];
    assert_eq!(vfs.io_read(a, &mut buf, 0), 0);
    assert_eq!(&buf, b"aaaa");
    assert_eq!(vfs.bytes_in_use(), 2);
    assert_eq!(vfs.checked_bytes_in_use(), Some(2));
}

#[test]
fn files_that_go_on_close() {
    let mut vfs = Vfs::new();
    let a = open(&mut vfs, Some("/del"), RW_CREATE | ffi::SQLITE_OPEN_DELETEONCLOSE).unwrap();
    let b = open(&mut vfs, Some("/__tvm_mem_anon_3-journal"), RW_CREATE).unwrap();
    let c = open(&mut vfs, Some("/keep"), RW_CREATE).unwrap();
    assert_eq!(vfs.file_count(), 3);
    vfs.io_close(a);
    vfs.io_close(b);
    vfs.io_close(c);
    assert_eq!(vfs.file_count(), 1);
    assert_eq!(vfs.vfs_access(b"/keep"), Ok(true));
    assert_eq!(vfs.io_close(c), ffi::SQLITE_OK, "closing twice is harmless");
}

#[test]
fn many_journal_cycles_leave_the_table_as_it_was() {
    let mut vfs = Vfs::new();
    let db = open(&mut vfs, Some("/__tvm_mem_anon_1"), RW_CREATE).unwrap();
    for i in 0..16u8 {
        let j = open(&mut vfs, Some("/__tvm_mem_anon_1-journal"), RW_CREATE).unwrap();
        assert_eq!(vfs.io_write(j, &[i; 512], 0), 0);
        vfs.io_close(j);
        assert_eq!(vfs.vfs_delete(b"/__tvm_mem_anon_1-journal"), 0);
        assert_eq!(vfs.file_count(), 1);
    }
    vfs.io_close(db);
    assert_eq!(vfs.file_count(), 0);
}

#[test]
fn lock_levels_are_tracked() {
    let mut vfs = Vfs::new();
    let f = open(&mut vfs, Some("/x"), RW_CREATE).unwrap();
    assert_eq!(vfs.io_lock(f, 1), 0);
    assert_eq!(vfs.io_lock(f, 4), 0);
    assert_eq!(vfs.io_unlock(f, 1), 0);
    assert_eq!(vfs.io_unlock(f, 0), 0);
    assert_eq!(vfs.io_lock(99, 1), ffi::SQLITE_OK);
    assert_eq!(vfs.io_unlock(99, 0), ffi::SQLITE_OK);
}

const LOCK_SHARED: i32 = ffi::SQLITE_SHM_LOCK | ffi::SQLITE_SHM_SHARED;
const LOCK_EXCLUSIVE: i32 = ffi::SQLITE_SHM_LOCK | ffi::SQLITE_SHM_EXCLUSIVE;
const UNLOCK_SHARED: i32 = ffi::SQLITE_SHM_UNLOCK | ffi::SQLITE_SHM_SHARED;
const UNLOCK_EXCLUSIVE: i32 = ffi::SQLITE_SHM_UNLOCK | ffi::SQLITE_SHM_EXCLUSIVE;

#[test]
fn shared_memory_is_shared_and_locked() {
    let mut t = ShmTable::new();
    assert!(!t.io_shm_map(5, 0, 0, 16, false), "nothing is made without leave");
    assert!(t.io_shm_map(5, 0, 1, 16, true));
    assert_eq!(t.region_mut(5, 0).len(), 16);
    t.region_mut(5, 1)[3] = 42;
    assert!(t.io_shm_map(5, 1, 1, 16, false), "the other handle sees it");
    assert_eq!(t.region_mut(5, 1)[3], 42);
    assert_eq!(t.region_mut(5, 0)[3], 0);

    assert_eq!(t.io_shm_lock(5, 0, 0, 1, LOCK_SHARED), ffi::SQLITE_OK);
    assert_eq!(t.io_shm_lock(5, 1, 0, 1, LOCK_SHARED), ffi::SQLITE_OK);
    assert_eq!(t.io_shm_lock(5, 1, 0, 2, LOCK_EXCLUSIVE), ffi::SQLITE_BUSY);
    assert_eq!(t.io_shm_lock(5, 0, 0, 1, UNLOCK_SHARED), ffi::SQLITE_OK);
    assert_eq!(t.io_shm_lock(5, 1, 0, 2, LOCK_EXCLUSIVE), ffi::SQLITE_OK);
    assert_eq!(t.io_shm_lock(5, 0, 1, 1, LOCK_SHARED), ffi::SQLITE_BUSY);
    assert_eq!(t.io_shm_lock(5, 1, 0, 2, UNLOCK_EXCLUSIVE), ffi::SQLITE_OK);
    assert_eq!(t.io_shm_lock(5, 0, 1, 1, LOCK_SHARED), ffi::SQLITE_OK);
    assert_eq!(t.io_shm_lock(5, 0, 7, 2, LOCK_SHARED), ffi::SQLITE_IOERR);
    assert_eq!(t.io_shm_lock(5, 0, 0, 1, 0), ffi::SQLITE_IOERR);

    t.io_shm_unmap(5, 0, false);
    assert_eq!(t.io_shm_lock(5, 1, 0, 8, LOCK_EXCLUSIVE), ffi::SQLITE_OK, "locks went along");
    assert!(t.io_shm_map(5, 1, 1, 16, false));
    t.io_shm_unmap(5, 1, false);
    assert!(!t.io_shm_map(5, 1, 1, 16, false), "the last one out frees it");
}

#[test]
fn vfs_name_and_install() {
    assert_eq!(tvm::name(), "tvm-mem");
    let mut gate = DefaultGate::new();
    assert!(!is_installed(&gate));
    assert_eq!(install(&mut gate), Some(0));
    let e = installed(&mut gate, 1).unwrap_err();
    assert_eq!(e.display(), "sqlite3_vfs_register failed (code 1)");
    assert!(!is_installed(&gate));
    assert_eq!(install_as_default(&mut gate), Some(1));
    assert!(installed(&mut gate, 0).is_ok());
    assert!(is_installed(&gate));
    assert_eq!(install(&mut gate), None);
    assert_eq!(install_as_default(&mut gate), None);
}

#[test]
fn a_named_file_system_can_become_the_default() {
    let mut gate = DefaultGate::new();
    assert_eq!(install(&mut gate), Some(0));
    assert!(installed(&mut gate, 0).is_ok());
    assert_eq!(install(&mut gate), None);
    assert_eq!(install_as_default(&mut gate), Some(1));
    assert!(installed(&mut gate, 1).is_err());
    assert!(is_installed(&gate), "it keeps its name");
    assert_eq!(install_as_default(&mut gate), Some(1));
    assert!(installed(&mut gate, 0).is_ok());
    assert_eq!(install_as_default(&mut gate), None);
}

#[test]
fn full_pathname_is_cut_to_fit() {
    let mut out = [7u8; 8];
    assert_eq!(vfs_full_pathname(b"/a.db", &mut out), ffi::SQLITE_OK);
    assert_eq!(&out, b"/a.db\0\x07\x07");
    let mut out = [7u8; 4];
    assert_eq!(vfs_full_pathname(b"/a.db", &mut out), ffi::SQLITE_OK);
    assert_eq!(&out, b"/a.\0");
    assert_eq!(vfs_full_pathname(b"/a.db", &mut []), ffi::SQLITE_IOERR);
}

#[test]
fn fixed_answers() {
    assert_eq!(io_sector_size(), 4096);
    assert_eq!(
        io_device_characteristics(),
        ffi::SQLITE_IOCAP_ATOMIC | ffi::SQLITE_IOCAP_SAFE_APPEND | ffi::SQLITE_IOCAP_SEQUENTIAL
    );
    assert_eq!(io_file_control(1), ffi::SQLITE_NOTFOUND);
    assert_eq!(vfs_current_time_int64(), (2_451_544.5 * 86_400_000.0) as i64);
}

#[test]
fn randomness_follows_the_generator() {
    let mut seed = TVM_SEED;
    let mut out = [0u8; 11];
    assert_eq!(vfs_randomness(&mut seed, &mut out), 11);
    assert_eq!(seed, TVM_SEED + 1);
    let a = TVM_SEED.wrapping_mul(0x5DEECE66D).wrapping_add(0xB);
    let b = a.wrapping_mul(0x5DEECE66D).wrapping_add(0xB);
    assert_eq!(&out[..8], &a.to_le_bytes());
    assert_eq!(&out[8..], &b.to_le_bytes()[..3]);
    assert_eq!(vfs_randomness(&mut seed, &mut []), 0);
    assert_eq!(seed, TVM_SEED + 1);
    assert_eq!(TVM_SEED, 0x9E3779B97F4A7C15);
    assert_eq!(OPFS_SEED, 0xA1B2_C3D4_E5F6_0718);
}

/// A pool of bytes and the storage that decides on it.
struct Pooled {
    pool: HashMap<u32, Vec<u8>>,
    storage: MultiMemoryStorage,
}

impl Pooled {
    fn read(&self, offset: u64, len: usize) -> (Vec<u8>, Result<(), i32>) {
        let mut job = ReadJob::new(offset, len);
        loop {
            match self.storage.read(&mut job) {
                ReadStep::Chunk(addr) => assert!(job.supply(&self.pool[&addr])),
                ReadStep::Done(rc) => return (job.into_bytes(), rc),
            }
        }
    }

    fn write(&mut self, offset: u64, data: &[u8]) -> Result<(), i32> {
        let mut job = WriteJob::new(offset, data);
        loop {
            match self.storage.write(&job) {
                WriteStep::Done => break,
                WriteStep::Refused(rc) => return Err(rc),
                WriteStep::Allocate => unreachable!(),
                WriteStep::Merge(addr) => {
                    let chunk = job.compose(&self.pool[&addr]);
                    self.pool.insert(addr, chunk);
                    self.storage.chunk_stored(&mut job);
                }
                WriteStep::Put(addr) => {
                    let chunk = job.compose(&[]);
                    self.pool.insert(addr, chunk);
                    self.storage.chunk_stored(&mut job);
                }
            }
        }
        self.storage.finish_write(&job);
        Ok(())
    }

    fn truncate(&mut self, size: u64) {
        if let Some((addr, keep)) = self.storage.truncate(size) {
            cut_chunk(self.pool.get_mut(&addr).unwrap(), keep);
        }
    }
}

#[test]
fn pool_storage_reads_back_what_was_written() {
    let mut cursor = SliceCursor::new(SLICE_BYTES);
    let _first = MultiMemoryStorage::new(&mut cursor).unwrap();
    let mut f = Pooled {
        pool: HashMap::new(),
        storage: MultiMemoryStorage::new(&mut cursor).unwrap(),
    };
    let chunk = CHUNK_SIZE as usize;
    let data: Vec<u8> = (0..2 * chunk + 10).map(|i| (i % 251) as u8).collect();
    f.write(chunk as u64 - 5, &data).unwrap();
    assert_eq!(f.storage.size(), (3 * chunk + 5) as u64);
    assert_eq!(f.read(chunk as u64 - 5, data.len()), (data.clone(), Ok(())));
    assert!(f.pool.keys().all(|a| *a >= SLICE_BYTES), "the second slice is used");
    let (head, rc) = f.read(0, 8);
    assert_eq!((head, rc), (vec![0u8; 8], Ok(())));
    f.write(chunk as u64, b"patch").unwrap();
    assert_eq!(f.read(chunk as u64, 5).0, b"patch");
    let (tail, rc) = f.read((3 * chunk) as u64, 100);
    assert_eq!(rc, Err(ffi::SQLITE_IOERR_SHORT_READ));
    assert_eq!(&tail[..5], &data[2 * chunk + 5..2 * chunk + 10]);
    assert!(tail[5..].iter().all(|b| *b == 0));
}

#[test]
fn pool_storage_grows_with_zeros_after_a_cut() {
    let mut cursor = SliceCursor::new(SLICE_BYTES);
    let mut f = Pooled {
        pool: HashMap::new(),
        storage: MultiMemoryStorage::new(&mut cursor).unwrap(),
    };
    f.write(0, &[7u8; 5000]).unwrap();
    f.truncate(100);
    assert_eq!(f.storage.size(), 100);
    f.truncate(6000);
    let (bytes, rc) = f.read(0, 6000);
    assert_eq!(rc, Ok(()));
    assert!(bytes[..100].iter().all(|b| *b == 7));
    assert!(bytes[100..].iter().all(|b| *b == 0));
    assert_eq!(f.write(u64::from(SLICE_BYTES), b"x"), Err(ffi::SQLITE_IOERR_WRITE));
    assert_eq!(f.write(1 << 44, b"x"), Err(ffi::SQLITE_IOERR_WRITE));
}

#[test]
fn a_full_pool_gives_no_storage() {
    let mut cursor = SliceCursor::new(SLICE_BYTES);
    for _ in 0..15 {
        assert!(MultiMemoryStorage::new(&mut cursor).is_ok());
    }
    assert!(MultiMemoryStorage::new(&mut cursor).is_err());
    assert!(MultiMemoryStorage::new(&mut cursor).is_err());
}

/// A manager of chunks by handle, which can be told to fail.
struct Managed {
    chunks: HashMap<u32, Vec<u8>>,
    next: u32,
    fail: bool,
    storage: WitTvmStorage<u32>,
}

impl Managed {
    fn reply<T>(&self, v: T) -> Result<T, ()> {
        if self.fail {
            Err(())
        } else {
            Ok(v)
        }
    }

    fn read(&self, offset: u64, len: usize) -> (Vec<u8>, Result<(), i32>) {
        let mut job = ReadJob::new(offset, len);
        loop {
            match self.storage.read(&mut job) {
                ReadStep::Chunk(h) => {
                    let reply = self.reply(self.chunks[&h].clone());
                    if let Err(rc) = WitTvmStorage::<u32>::read_reply(&mut job, reply) {
                        return (job.into_bytes(), Err(rc));
                    }
                }
                ReadStep::Done(rc) => return (job.into_bytes(), rc),
            }
        }
    }

    fn write(&mut self, offset: u64, data: &[u8]) -> Result<(), i32> {
        let mut job = WriteJob::new(offset, data);
        loop {
            let (h, chunk) = match self.storage.write(&job) {
                WriteStep::Done => break,
                WriteStep::Refused(rc) => return Err(rc),
                WriteStep::Allocate => {
                    let reply = self.reply(self.next);
                    self.storage.allocated(&job, reply)?;
                    self.chunks.insert(self.next, Vec::new());
                    self.next += 1;
                    continue;
                }
                WriteStep::Merge(h) => {
                    (h, WitTvmStorage::<u32>::merge(&job, self.reply(self.chunks[&h].clone())))
                }
                WriteStep::Put(h) => (h, job.compose(&[])),
            };
            let reply = self.reply(());
            if reply.is_ok() {
                self.chunks.insert(h, chunk);
            }
            WitTvmStorage::<u32>::chunk_stored(&mut job, reply)?;
        }
        self.storage.finish_write(&job);
        Ok(())
    }
}

#[test]
fn handle_storage_reads_back_what_was_written() {
    assert_eq!(WitTvmStorage::<u32>::new(Err("no")).err(), Some("no"));
    let mut f = Managed {
        chunks: HashMap::new(),
        next: 100,
        fail: false,
        storage: WitTvmStorage::new(Ok::<u16, ()>(9)).unwrap(),
    };
    assert_eq!(f.storage.region_id(), 9);
    let data: Vec<u8> = (0..9000).map(|i| (i % 253) as u8).collect();
    f.write(4000, &data).unwrap();
    assert_eq!(f.read(4000, 9000), (data, Ok(())));
    assert_eq!(f.storage.size(), 13000);
    assert_eq!(f.storage.boundary(4097).map(|b| b.1), Some(1));
    assert_eq!(f.storage.boundary(8192), None);
    let mut dead = f.storage.truncate(4097);
    dead.sort();
    assert_eq!(dead, vec![102, 103]);
    assert_eq!(f.storage.size(), 4097);
    f.fail = true;
    assert_eq!(f.read(4000, 10).1, Err(ffi::SQLITE_IOERR_READ));
    assert_eq!(f.write(0, b"x"), Err(ffi::SQLITE_IOERR_WRITE));
    assert_eq!(f.write(20000, b"x"), Err(ffi::SQLITE_IOERR_WRITE));
    assert_eq!(f.write(1 << 44, b"x"), Err(ffi::SQLITE_IOERR_WRITE));
}
