//! The engine's constants.

use libsqlite3_sys as ffi;
use sqlite_wasm::codes;
use sqlite_wasm::host_vtabs::{map_constraint_op, ConstraintOp};
use sqlite_wasm::sqlite_lib::errors::{ll_map_err, DbError, ResultCode};

#[test]
fn codes_are_the_engines() {
    assert_eq!(codes::SQLITE_OK, ffi::SQLITE_OK);
    assert_eq!(codes::SQLITE_ERROR, ffi::SQLITE_ERROR);
    assert_eq!(codes::SQLITE_INTERNAL, ffi::SQLITE_INTERNAL);
    assert_eq!(codes::SQLITE_BUSY, ffi::SQLITE_BUSY);
    assert_eq!(codes::SQLITE_READONLY, ffi::SQLITE_READONLY);
    assert_eq!(codes::SQLITE_IOERR, ffi::SQLITE_IOERR);
    assert_eq!(codes::SQLITE_NOTFOUND, ffi::SQLITE_NOTFOUND);
    assert_eq!(codes::SQLITE_FULL, ffi::SQLITE_FULL);
    assert_eq!(codes::SQLITE_CANTOPEN, ffi::SQLITE_CANTOPEN);
    assert_eq!(codes::SQLITE_MISUSE, ffi::SQLITE_MISUSE);
    assert_eq!(codes::SQLITE_ROW, ffi::SQLITE_ROW);
    assert_eq!(codes::SQLITE_DONE, ffi::SQLITE_DONE);
    assert_eq!(codes::SQLITE_IOERR_READ, ffi::SQLITE_IOERR_READ);
    assert_eq!(codes::SQLITE_IOERR_SHORT_READ, ffi::SQLITE_IOERR_SHORT_READ);
    assert_eq!(codes::SQLITE_IOERR_WRITE, ffi::SQLITE_IOERR_WRITE);
    assert_eq!(codes::SQLITE_TYPE_INTEGER, ffi::SQLITE_INTEGER);
    assert_eq!(codes::SQLITE_TYPE_FLOAT, ffi::SQLITE_FLOAT);
    assert_eq!(codes::SQLITE_TYPE_TEXT, ffi::SQLITE_TEXT);
    assert_eq!(codes::SQLITE_TYPE_BLOB, ffi::SQLITE_BLOB);
    assert_eq!(codes::SQLITE_OPEN_CREATE, ffi::SQLITE_OPEN_CREATE);
    assert_eq!(codes::SQLITE_OPEN_DELETEONCLOSE, ffi::SQLITE_OPEN_DELETEONCLOSE);
    assert_eq!(codes::SQLITE_LOCK_NONE, ffi::SQLITE_LOCK_NONE);
    assert_eq!(codes::SQLITE_SHM_UNLOCK, ffi::SQLITE_SHM_UNLOCK);
    assert_eq!(codes::SQLITE_SHM_LOCK, ffi::SQLITE_SHM_LOCK);
    assert_eq!(codes::SQLITE_SHM_SHARED, ffi::SQLITE_SHM_SHARED);
    assert_eq!(codes::SQLITE_SHM_EXCLUSIVE, ffi::SQLITE_SHM_EXCLUSIVE);
    assert_eq!(codes::SQLITE_FCNTL_LOCKSTATE, ffi::SQLITE_FCNTL_LOCKSTATE);
    assert_eq!(codes::SQLITE_IOCAP_ATOMIC, ffi::SQLITE_IOCAP_ATOMIC);
    assert_eq!(codes::SQLITE_IOCAP_SAFE_APPEND, ffi::SQLITE_IOCAP_SAFE_APPEND);
    assert_eq!(codes::SQLITE_IOCAP_SEQUENTIAL, ffi::SQLITE_IOCAP_SEQUENTIAL);
}

#[test]
fn constraint_codes_are_the_engines() {
    let pairs = [
        (ffi::SQLITE_INDEX_CONSTRAINT_EQ, ConstraintOp::Eq),
        (ffi::SQLITE_INDEX_CONSTRAINT_GT, ConstraintOp::Gt),
        (ffi::SQLITE_INDEX_CONSTRAINT_LE, ConstraintOp::Le),
        (ffi::SQLITE_INDEX_CONSTRAINT_LT, ConstraintOp::Lt),
        (ffi::SQLITE_INDEX_CONSTRAINT_GE, ConstraintOp::Ge),
        (ffi::SQLITE_INDEX_CONSTRAINT_NE, ConstraintOp::Ne),
        (ffi::SQLITE_INDEX_CONSTRAINT_MATCH, ConstraintOp::Match),
        (ffi::SQLITE_INDEX_CONSTRAINT_LIKE, ConstraintOp::Like),
        (ffi::SQLITE_INDEX_CONSTRAINT_REGEXP, ConstraintOp::Regexp),
        (ffi::SQLITE_INDEX_CONSTRAINT_GLOB, ConstraintOp::Glob),
        (ffi::SQLITE_INDEX_CONSTRAINT_ISNULL, ConstraintOp::IsNull),
        (ffi::SQLITE_INDEX_CONSTRAINT_ISNOTNULL, ConstraintOp::IsNotNull),
        (ffi::SQLITE_INDEX_CONSTRAINT_LIMIT, ConstraintOp::Limit),
        (ffi::SQLITE_INDEX_CONSTRAINT_OFFSET, ConstraintOp::Offset),
        (ffi::SQLITE_INDEX_CONSTRAINT_FUNCTION, ConstraintOp::Function),
        (1, ConstraintOp::Function),
    ];
    for (code, op) in pairs {
        assert_eq!(map_constraint_op(code as u8), op);
    }
}

#[test]
fn low_level_codes_are_the_engines() {
    let pairs = [
        (ffi::SQLITE_BUSY, ResultCode::Busy),
        (ffi::SQLITE_LOCKED, ResultCode::Locked),
        (ffi::SQLITE_NOMEM, ResultCode::Nomem),
        (ffi::SQLITE_READONLY, ResultCode::Readonly),
        (ffi::SQLITE_INTERRUPT, ResultCode::Interrupt),
        (ffi::SQLITE_IOERR, ResultCode::Ioerr),
        (ffi::SQLITE_CORRUPT, ResultCode::Corrupt),
        (ffi::SQLITE_NOTFOUND, ResultCode::Notfound),
        (ffi::SQLITE_FULL, ResultCode::Full),
        (ffi::SQLITE_CANTOPEN, ResultCode::Cantopen),
        (ffi::SQLITE_PROTOCOL, ResultCode::Protocol),
        (ffi::SQLITE_SCHEMA, ResultCode::Schema),
        (ffi::SQLITE_TOOBIG, ResultCode::Toobig),
        (ffi::SQLITE_CONSTRAINT, ResultCode::Constraint),
        (ffi::SQLITE_MISMATCH, ResultCode::Mismatch),
        (ffi::SQLITE_MISUSE, ResultCode::Misuse),
        (ffi::SQLITE_NOLFS, ResultCode::Nolfs),
        (ffi::SQLITE_AUTH, ResultCode::Auth),
        (ffi::SQLITE_RANGE, ResultCode::Range),
        (ffi::SQLITE_NOTADB, ResultCode::Notadb),
        (ffi::SQLITE_PERM, ResultCode::Error),
    ];
    for (code, want) in pairs {
        let e = DbError { code, extended_code: code, message: String::new() };
        assert_eq!(ll_map_err(&e), want);
    }
}
