//! Errors of the engine's, as the interfaces show them.

use crate::codes::SQLITE_MISUSE;
use crate::text::{decimal, find_nul, lossy, lossy_text, push_decimal, push_signed_decimal, signed_decimal};
use vstd::prelude::*;
use vstd::string::*;
use vstd::utf8::encode_utf8;

verus! {

/// An error of the engine's.
#[derive(Debug)]
pub struct DbError {
    pub code: i32,
    pub extended_code: i32,
    pub message: String,
}

/// `e` is the error for the code `rc`, of which the low byte is the primary one.
pub open spec fn is_error(e: DbError, rc: i32, message: Seq<char>) -> bool {
    e.code == rc & 0xff && e.extended_code == rc && e.message@ == message
}

/// `e` is a misuse.
pub open spec fn is_misuse(e: DbError, message: Seq<char>) -> bool {
    e.code == SQLITE_MISUSE && e.extended_code == SQLITE_MISUSE && e.message@ == message
}

/// A misuse.
pub fn misuse(message: &str) -> (r: DbError)
    ensures
        is_misuse(r, message@),
{
    DbError {
        code: SQLITE_MISUSE,
        extended_code: SQLITE_MISUSE,
        message: String::from_str(message),
    }
}

/// The text of a NUL at `position`.
pub open spec fn nul_text(position: nat) -> Seq<char> {
    "nul byte found in provided data at position: "@ + decimal(position)
}

/// `i` is where `b` holds its first NUL.
pub open spec fn first_nul(b: Seq<u8>, i: int) -> bool {
    0 <= i < b.len() && b[i] == 0 && forall|j: int| 0 <= j < i ==> b[j] != 0
}

/// A statement as a C string; a NUL in it is a misuse.
pub fn statement_bytes(sql: &str) -> (r: Result<Vec<u8>, DbError>)
    ensures
        match r {
            Ok(v) => !encode_utf8(sql@).contains(0u8) && v@ == encode_utf8(sql@).push(0u8),
            Err(e) => exists|i: int| #[trigger]
                first_nul(encode_utf8(sql@), i) && is_misuse(e, nul_text(i as nat)),
        },
{
    match find_nul(sql.as_bytes()) {
        Some(i) => {
            let mut s = String::from_str("nul byte found in provided data at position: ");
            push_decimal(&mut s, i as u64);
            assert(first_nul(encode_utf8(sql@), i as int));
            Err(DbError { code: SQLITE_MISUSE, extended_code: SQLITE_MISUSE, message: s })
        },
        None => {
            let mut v = vstd::slice::slice_to_vec(sql.as_bytes());
            v.push(0u8);
            Ok(v)
        },
    }
}

/// The text of a failure: the engine's own, or else what failed and its code.
pub open spec fn failure_text(own: Option<Seq<u8>>, what: Seq<char>, rc: i32) -> Seq<char> {
    match own {
        Some(b) => lossy_text(b),
        None => what + " failed (code "@ + signed_decimal(rc as int) + ")"@,
    }
}

/// The error for the code `rc` of the call `what`, with the engine's own text
/// where there is one.
pub fn engine_error(rc: i32, own: Option<&[u8]>, what: &str) -> (r: DbError)
    ensures
        is_error(
            r,
            rc,
            failure_text(
                match own {
                    Some(b) => Some(b@),
                    None => None,
                },
                what@,
                rc,
            ),
        ),
{
    let message: String = match own {
        Some(b) => lossy(b),
        None => {
            let mut s = String::from_str(what);
            s.append(" failed (code ");
            push_signed_decimal(&mut s, rc as i64);
            s.append(")");
            assert(s@ =~= what@ + " failed (code "@ + signed_decimal(rc as int) + ")"@);
            s
        },
    };
    DbError { code: rc & 0xff, extended_code: rc, message }
}

/// The error for the code `rc` of binding the parameter at `index`.
pub fn bind_error(rc: i32, own: Option<&[u8]>, index: i32) -> (r: DbError)
    ensures
        is_error(
            r,
            rc,
            match own {
                Some(b) => lossy_text(b@),
                None => failure_text(None, "sqlite3_bind_*"@, rc) + " at index "@ + signed_decimal(
                    index as int,
                ),
            },
        ),
{
    let mut e: DbError = engine_error(rc, own, "sqlite3_bind_*");
    match own {
        Some(_) => {},
        None => {
            let mut s = String::from_str(e.message.as_str());
            s.append(" at index ");
            push_signed_decimal(&mut s, index as i64);
            e.message = s;
        },
    }
    e
}

/// The result codes of the low-level interface.
#[derive(Copy, Clone, Debug, PartialEq, Eq, Structural)]
pub enum ResultCode {
    Success,
    Error,
    Busy,
    Locked,
    Nomem,
    Readonly,
    Interrupt,
    Ioerr,
    Corrupt,
    Notfound,
    Full,
    Cantopen,
    Protocol,
    Schema,
    Toobig,
    Constraint,
    Mismatch,
    Misuse,
    Nolfs,
    Auth,
    Range,
    Notadb,
}

/// The low-level code of an error with the primary code `code`.
pub open spec fn result_code(code: i32) -> ResultCode {
    match code {
        5 => ResultCode::Busy,
        6 => ResultCode::Locked,
        7 => ResultCode::Nomem,
        8 => ResultCode::Readonly,
        9 => ResultCode::Interrupt,
        10 => ResultCode::Ioerr,
        11 => ResultCode::Corrupt,
        12 => ResultCode::Notfound,
        13 => ResultCode::Full,
        14 => ResultCode::Cantopen,
        15 => ResultCode::Protocol,
        17 => ResultCode::Schema,
        18 => ResultCode::Toobig,
        19 => ResultCode::Constraint,
        20 => ResultCode::Mismatch,
        21 => ResultCode::Misuse,
        22 => ResultCode::Nolfs,
        23 => ResultCode::Auth,
        25 => ResultCode::Range,
        26 => ResultCode::Notadb,
        _ => ResultCode::Error,
    }
}

/// The low-level code of an error.
pub fn ll_map_err(e: &DbError) -> (r: ResultCode)
    ensures
        r == result_code(e.code),
        r != ResultCode::Success,
{
    match e.code {
        5 => ResultCode::Busy,
        6 => ResultCode::Locked,
        7 => ResultCode::Nomem,
        8 => ResultCode::Readonly,
        9 => ResultCode::Interrupt,
        10 => ResultCode::Ioerr,
        11 => ResultCode::Corrupt,
        12 => ResultCode::Notfound,
        13 => ResultCode::Full,
        14 => ResultCode::Cantopen,
        15 => ResultCode::Protocol,
        17 => ResultCode::Schema,
        18 => ResultCode::Toobig,
        19 => ResultCode::Constraint,
        20 => ResultCode::Mismatch,
        21 => ResultCode::Misuse,
        22 => ResultCode::Nolfs,
        23 => ResultCode::Auth,
        25 => ResultCode::Range,
        26 => ResultCode::Notadb,
        _ => ResultCode::Error,
    }
}

} // verus!
