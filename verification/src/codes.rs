//! The engine's result codes and flags that this library speaks of.

use vstd::prelude::*;

verus! {

pub const SQLITE_OK: i32 = 0;

pub const SQLITE_ERROR: i32 = 1;

pub const SQLITE_INTERNAL: i32 = 2;

pub const SQLITE_BUSY: i32 = 5;

pub const SQLITE_READONLY: i32 = 8;

pub const SQLITE_IOERR: i32 = 10;

pub const SQLITE_NOTFOUND: i32 = 12;

pub const SQLITE_FULL: i32 = 13;

pub const SQLITE_CANTOPEN: i32 = 14;

pub const SQLITE_MISUSE: i32 = 21;

pub const SQLITE_ROW: i32 = 100;

pub const SQLITE_DONE: i32 = 101;

pub const SQLITE_IOERR_READ: i32 = 266;

pub const SQLITE_IOERR_SHORT_READ: i32 = 522;

pub const SQLITE_IOERR_WRITE: i32 = 778;

pub const SQLITE_TYPE_INTEGER: i32 = 1;

pub const SQLITE_TYPE_FLOAT: i32 = 2;

pub const SQLITE_TYPE_TEXT: i32 = 3;

pub const SQLITE_TYPE_BLOB: i32 = 4;

pub const SQLITE_OPEN_CREATE: i32 = 4;

pub const SQLITE_OPEN_DELETEONCLOSE: i32 = 8;

pub const SQLITE_LOCK_NONE: i32 = 0;

pub const SQLITE_SHM_UNLOCK: i32 = 1;

pub const SQLITE_SHM_LOCK: i32 = 2;

pub const SQLITE_SHM_SHARED: i32 = 4;

pub const SQLITE_SHM_EXCLUSIVE: i32 = 8;

pub const SQLITE_FCNTL_LOCKSTATE: i32 = 1;

pub const SQLITE_IOCAP_ATOMIC: i32 = 1;

pub const SQLITE_IOCAP_SAFE_APPEND: i32 = 512;

pub const SQLITE_IOCAP_SEQUENTIAL: i32 = 1024;

} // verus!
