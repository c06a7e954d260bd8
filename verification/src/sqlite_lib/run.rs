//! Running statements: binding, stepping, walking over several statements in
//! one text, and telling whether a text is complete.

use crate::codes::{
    SQLITE_DONE, SQLITE_OK, SQLITE_ROW, SQLITE_TYPE_BLOB, SQLITE_TYPE_FLOAT, SQLITE_TYPE_INTEGER,
    SQLITE_TYPE_TEXT,
};
use crate::sqlite_lib::errors::{bind_error, engine_error, failure_text, is_error, DbError};
use crate::sqlite_lib::values::DbValue;
use crate::text::{
    bytes_eq, c_bytes, c_string, lossy, lossy_text, signed_decimal, texts, trim, trim_end,
    trim_start,
};
use vstd::prelude::*;
use vstd::string::*;
use vstd::utf8::{decode_utf8, encode_utf8, is_char_boundary};

verus! {

/// Binding a number of values one after the other, at positions from 1 on.
pub struct BindRun {
    count: usize,
    next: usize,
}

impl BindRun {
    /// How many values there are.
    pub closed spec fn count(&self) -> nat {
        self.count as nat
    }

    /// How many of them are bound.
    pub closed spec fn bound(&self) -> nat {
        self.next as nat
    }

    /// No more is bound than there is.
    pub closed spec fn wf(&self) -> bool {
        self.next <= self.count
    }

    /// Nothing is bound yet.
    pub fn new(count: usize) -> (r: Self)
        ensures
            r.wf(),
            r.count() == count,
            r.bound() == 0,
    {
        BindRun { count, next: 0 }
    }

    /// The index of the value that is bound next and its position.
    pub fn step(&self) -> (r: Option<(usize, i32)>)
        requires
            self.wf(),
        ensures
            r == if self.bound() < self.count() {
                Some((self.bound() as usize, (self.bound() + 1) as i32))
            } else {
                None
            },
    {
        if self.next < self.count {
            Some((self.next, (self.next + 1) as i32))
        } else {
            None
        }
    }

    /// Takes the engine's answer to binding the next value, and its error text.
    pub fn reply(&mut self, rc: i32, own: Option<&[u8]>) -> (r: Result<(), DbError>)
        requires
            old(self).wf(),
            old(self).bound() < old(self).count(),
        ensures
            final(self).wf(),
            final(self).count() == old(self).count(),
            if rc == SQLITE_OK {
                r is Ok && final(self).bound() == old(self).bound() + 1
            } else {
                &&& r is Err
                &&& final(self).bound() == old(self).bound()
                &&& is_error(
                    r->Err_0,
                    rc,
                    match own {
                        Some(b) => lossy_text(b@),
                        None => failure_text(None, "sqlite3_bind_*"@, rc) + " at index "@
                            + signed_decimal(((old(self).bound() + 1) as i32) as int),
                    },
                )
            },
    {
        if rc != SQLITE_OK {
            return Err(bind_error(rc, own, (self.next + 1) as i32));
        }
        self.next = self.next + 1;
        Ok(())
    }
}

/// The value of a column of the type `kind`, as in `value_to_owned` but that
/// text which is not valid UTF-8 is repaired.
pub open spec fn column_value(kind: i32, integer: i64, bits: u64, bytes: Option<Seq<u8>>, r: DbValue) -> bool {
    if kind == SQLITE_TYPE_INTEGER {
        r == DbValue::Integer(integer)
    } else if kind == SQLITE_TYPE_FLOAT {
        r == DbValue::Real(bits)
    } else if kind == SQLITE_TYPE_TEXT {
        r matches DbValue::Text(s) && s@ == match bytes {
            Some(b) => lossy_text(b),
            None => Seq::empty(),
        }
    } else if kind == SQLITE_TYPE_BLOB {
        r matches DbValue::Blob(v) && v@ == match bytes {
            Some(b) => b,
            None => Seq::empty(),
        }
    } else {
        r == DbValue::Null
    }
}

/// The value of a column, from its parts.
pub fn column_value_raw(kind: i32, integer: i64, bits: u64, bytes: Option<&[u8]>) -> (r: DbValue)
    ensures
        column_value(
            kind,
            integer,
            bits,
            match bytes {
                Some(b) => Some(b@),
                None => None,
            },
            r,
        ),
        kind == SQLITE_TYPE_INTEGER ==> r == DbValue::Integer(integer),
        kind == SQLITE_TYPE_FLOAT ==> r == DbValue::Real(bits),
        kind == SQLITE_TYPE_TEXT && bytes is Some ==> r is Text && r->Text_0@ == lossy_text(
            bytes->0@,
        ),
        kind == SQLITE_TYPE_BLOB && bytes is Some ==> r is Blob && r->Blob_0@ == bytes->0@,
        kind < 1 || kind > 4 ==> r is Null,
{
    if kind == SQLITE_TYPE_INTEGER {
        DbValue::Integer(integer)
    } else if kind == SQLITE_TYPE_FLOAT {
        DbValue::Real(bits)
    } else if kind == SQLITE_TYPE_TEXT {
        match bytes {
            Some(b) => DbValue::Text(lossy(b)),
            None => {
                let s = String::new();
                assert(s@ =~= Seq::empty());
                DbValue::Text(s)
            },
        }
    } else if kind == SQLITE_TYPE_BLOB {
        match bytes {
            Some(b) => DbValue::Blob(vstd::slice::slice_to_vec(b)),
            None => {
                let v: Vec<u8> = Vec::new();
                assert(v@ =~= Seq::empty());
                DbValue::Blob(v)
            },
        }
    } else {
        DbValue::Null
    }
}

/// What stepping a statement came to.
#[derive(Debug)]
pub enum CollectStep {
    /// The columns of a row are to be read, and the statement stepped again.
    ReadRow,
    /// There are no more rows.
    Done,
    /// The statement failed.
    Fail(DbError),
}

/// What stepping a statement came to, by the engine's answer and its error text.
pub fn step_outcome(rc: i32, own: Option<&[u8]>) -> (r: CollectStep)
    ensures
        if rc == SQLITE_ROW {
            r is ReadRow
        } else if rc == SQLITE_DONE {
            r is Done
        } else {
            r matches CollectStep::Fail(e) && is_error(
                e,
                rc,
                failure_text(
                    match own {
                        Some(b) => Some(b@),
                        None => None,
                    },
                    "sqlite3_step"@,
                    rc,
                ),
            )
        },
{
    if rc == SQLITE_ROW {
        CollectStep::ReadRow
    } else if rc == SQLITE_DONE {
        CollectStep::Done
    } else {
        CollectStep::Fail(engine_error(rc, own, "sqlite3_step"))
    }
}

/// The name of a column: empty where the engine gives none.
pub fn column_name(name: Option<&[u8]>) -> (r: String)
    ensures
        r@ == match name {
            Some(b) => lossy_text(b@),
            None => Seq::<char>::empty(),
        },
{
    match name {
        Some(b) => lossy(b),
        None => {
            let s = String::new();
            assert(s@ =~= Seq::<char>::empty());
            s
        },
    }
}

/// The rows of a statement, with their columns.
pub struct Collected<V> {
    pub columns: Vec<String>,
    pub rows: Vec<Vec<V>>,
}

impl<V> Collected<V> {
    /// The first value of the first row, if there is one.
    pub fn into_scalar(self) -> (r: Option<V>)
        ensures
            if self.rows@.len() > 0 && self.rows@[0]@.len() > 0 {
                r == Some(self.rows@[0]@[0])
            } else {
                r is None
            },
    {
        let mut rows: Vec<Vec<V>> = self.rows;
        if rows.len() == 0 {
            return None;
        }
        let mut first: Vec<V> = rows.swap_remove(0);
        if first.len() == 0 {
            return None;
        }
        Some(first.swap_remove(0))
    }
}

/// Gathering the rows of a statement.
pub struct CollectRun<V> {
    columns: Vec<String>,
    rows: Vec<Vec<V>>,
}

impl<V> CollectRun<V> {
    /// The names of the columns.
    pub closed spec fn columns(&self) -> Seq<Seq<char>> {
        texts(self.columns@)
    }

    /// The rows so far, in order.
    pub closed spec fn rows(&self) -> Seq<Vec<V>> {
        self.rows@
    }

    /// A statement with these columns, before its first row.
    pub fn new(columns: Vec<String>) -> (r: Self)
        ensures
            r.columns() == texts(columns@),
            r.rows() == Seq::<Vec<V>>::empty(),
    {
        CollectRun { columns, rows: Vec::new() }
    }

    /// The values of the next row.
    pub fn row(&mut self, values: Vec<V>)
        ensures
            final(self).columns() == old(self).columns(),
            final(self).rows() == old(self).rows().push(values),
    {
        self.rows.push(values);
    }

    /// The rows that were gathered, with their columns.
    pub fn finish(self) -> (r: Collected<V>)
        ensures
            texts(r.columns@) == self.columns(),
            r.rows@ == self.rows(),
    {
        Collected { columns: self.columns, rows: self.rows }
    }
}

/// `s` holds nothing but white space.
pub open spec fn blank(s: Seq<char>) -> bool {
    trim_end(trim_start(s)).len() == 0
}

/// Walking over the statements of one text. What is left starts at a byte offset;
/// the results so far are kept in order.
pub struct MultiRun<R> {
    sql: String,
    at: usize,
    ended: bool,
    results: Vec<R>,
}

impl<R> MultiRun<R> {
    /// The bytes of the text.
    pub closed spec fn bytes(&self) -> Seq<u8> {
        encode_utf8(self.sql@)
    }

    /// Where what is left starts.
    pub closed spec fn at(&self) -> int {
        self.at as int
    }

    /// Nothing is left, whatever the text says.
    pub closed spec fn ended(&self) -> bool {
        self.ended
    }

    /// The results so far.
    pub closed spec fn results(&self) -> Seq<R> {
        self.results@
    }

    /// What is left starts at a character.
    pub closed spec fn wf(&self) -> bool {
        &&& self.at <= encode_utf8(self.sql@).len()
        &&& is_char_boundary(encode_utf8(self.sql@), self.at as int)
    }

    /// The bytes that are left.
    pub open spec fn rest(&self) -> Seq<u8> {
        self.bytes().skip(self.at())
    }

    /// All of `sql` is left.
    pub fn new(sql: String) -> (r: Self)
        ensures
            r.wf(),
            r.bytes() == encode_utf8(sql@),
            r.at() == 0,
            !r.ended(),
            r.results() == Seq::<R>::empty(),
    {
        broadcast use vstd::utf8::is_char_boundary_start_end_of_seq;

        proof {
            vstd::utf8::encode_utf8_valid_utf8(sql@);
        }
        MultiRun { sql, at: 0, ended: false, results: Vec::new() }
    }

    /// The text that is left, where there is a statement to prepare: it is not
    /// blank.
    pub fn step(&self) -> (r: Option<&str>)
        requires
            self.wf(),
        ensures
            match r {
                Some(s) => !self.ended() && encode_utf8(s@) == self.rest() && !blank(s@),
                None => self.ended() || blank(decode_utf8(self.rest())),
            },
    {
        if self.ended {
            return None;
        }
        let rest: &str = self.sql.as_str().split_at(self.at).1;
        proof {
            assert(encode_utf8(rest@) =~= self.rest());
            vstd::utf8::encode_utf8_decode_utf8(rest@);
        }
        let trimmed: &str = trim(rest);
        if trimmed.is_empty() {
            None
        } else {
            Some(rest)
        }
    }

    /// Moves on by `tail` bytes, or to the end where there are no more.
    fn advance(&mut self, tail: usize)
        requires
            old(self).wf(),
            tail < old(self).rest().len() ==> is_char_boundary(
                old(self).bytes(),
                old(self).at() + tail,
            ),
        ensures
            final(self).wf(),
            final(self).bytes() == old(self).bytes(),
            final(self).results() == old(self).results(),
            if tail >= old(self).rest().len() {
                final(self).ended() && final(self).at() == old(self).at()
            } else {
                final(self).ended() == old(self).ended() && final(self).at() == old(self).at()
                    + tail
            },
    {
        let n: usize = self.sql.as_str().as_bytes().len();
        if tail >= n - self.at {
            self.ended = true;
            return;
        }
        self.at = self.at + tail;
    }

    /// There was no statement at the start of what is left; the next one starts
    /// `tail` bytes on.
    pub fn skip(&mut self, tail: usize)
        requires
            old(self).wf(),
            tail < old(self).rest().len() ==> is_char_boundary(
                old(self).bytes(),
                old(self).at() + tail,
            ),
        ensures
            final(self).wf(),
            final(self).bytes() == old(self).bytes(),
            final(self).results() == old(self).results(),
            if tail >= old(self).rest().len() {
                final(self).ended() && final(self).at() == old(self).at()
            } else {
                final(self).ended() == old(self).ended() && final(self).at() == old(self).at()
                    + tail
            },
    {
        self.advance(tail);
    }

    /// The statement at the start of what is left gave `result`; the next one
    /// starts `tail` bytes on.
    pub fn result(&mut self, result: R, tail: usize)
        requires
            old(self).wf(),
            tail < old(self).rest().len() ==> is_char_boundary(
                old(self).bytes(),
                old(self).at() + tail,
            ),
        ensures
            final(self).wf(),
            final(self).bytes() == old(self).bytes(),
            final(self).results() == old(self).results().push(result),
            if tail >= old(self).rest().len() {
                final(self).ended() && final(self).at() == old(self).at()
            } else {
                final(self).ended() == old(self).ended() && final(self).at() == old(self).at()
                    + tail
            },
    {
        self.results.push(result);
        self.advance(tail);
    }

    /// The results.
    pub fn into_results(self) -> (r: Vec<R>)
        ensures
            r@ == self.results(),
    {
        self.results
    }
}

/// The value that the parameter `name` is bound to, of values with the given
/// names: the first one that has the name without its first character. `None`
/// leaves the parameter alone.
pub fn named_param(names: &Vec<String>, name: &str) -> (r: Option<usize>)
    requires
        encode_utf8(name@).len() > 0,
    ensures
        ({
            let bare = encode_utf8(name@).skip(1);
            match r {
                Some(i) => {
                    &&& i < names@.len()
                    &&& encode_utf8(names@[i as int]@) == bare
                    &&& forall|j: int| 0 <= j < i ==> encode_utf8(#[trigger] names@[j]@) != bare
                },
                None => forall|j: int|
                    0 <= j < names@.len() ==> encode_utf8(#[trigger] names@[j]@) != bare,
            }
        }),
{
    let bytes: &[u8] = name.as_bytes();
    let bare = vstd::slice::slice_subrange(bytes, 1, bytes.len());
    assert(bare@ =~= encode_utf8(name@).skip(1));
    let mut i: usize = 0;
    while i < names.len()
        invariant
            bare@ == encode_utf8(name@).skip(1),
            i <= names.len(),
            forall|j: int| 0 <= j < i ==> encode_utf8(#[trigger] names@[j]@) != bare@,
        decreases names.len() - i,
    {
        if bytes_eq(names[i].as_str().as_bytes(), bare) {
            return Some(i);
        }
        i = i + 1;
    }
    None
}

/// Whether a text is a complete statement.
pub enum Complete {
    /// It is or it is not.
    Known(bool),
    /// The engine has to be asked about this C string.
    Ask(Vec<u8>),
}

/// Whether a text is a complete statement: a blank one is, and one with a NUL is
/// not. The engine is asked about any other, without the white space around it.
pub fn is_statement_complete(buffered: &str) -> (r: Complete)
    ensures
        ({
            let trimmed = trim_end(trim_start(buffered@));
            if trimmed.len() == 0 {
                r matches Complete::Known(b) && b
            } else if encode_utf8(trimmed).contains(0u8) {
                r matches Complete::Known(b) && !b
            } else {
                r matches Complete::Ask(v) && v@ == c_bytes(trimmed)
            }
        }),
{
    let trimmed: &str = trim(buffered);
    if trimmed.is_empty() {
        return Complete::Known(true);
    }
    match c_string(trimmed) {
        Some(v) => Complete::Ask(v),
        None => Complete::Known(false),
    }
}

/// How a connection is opened.
#[derive(Copy, Clone, Debug, PartialEq, Eq, Structural)]
pub enum OpenMode {
    Memory,
    ReadOnly,
    ReadWrite,
    Create,
}

/// What a connection is opened on.
#[derive(Copy, Clone, Debug, PartialEq, Eq, Structural)]
pub enum OpenTarget {
    /// A fresh database in memory.
    Memory,
    /// The file, for reading only.
    ReadOnlyFile,
    /// The file, with the default flags.
    File,
}

/// What a connection of the given mode is opened on.
pub fn open_target(mode: OpenMode) -> (r: OpenTarget)
    ensures
        r == match mode {
            OpenMode::Memory => OpenTarget::Memory,
            OpenMode::ReadOnly => OpenTarget::ReadOnlyFile,
            OpenMode::ReadWrite | OpenMode::Create => OpenTarget::File,
        },
{
    match mode {
        OpenMode::Memory => OpenTarget::Memory,
        OpenMode::ReadOnly => OpenTarget::ReadOnlyFile,
        OpenMode::ReadWrite => OpenTarget::File,
        OpenMode::Create => OpenTarget::File,
    }
}

/// The severity of a log message.
#[derive(Copy, Clone, Debug, PartialEq, Eq, Structural)]
pub enum LogLevel {
    Error,
    Warn,
    Info,
    Debug,
    Trace,
}

/// The name of a severity.
pub open spec fn level_name(level: LogLevel) -> Seq<char> {
    match level {
        LogLevel::Error => "ERROR"@,
        LogLevel::Warn => "WARN"@,
        LogLevel::Info => "INFO"@,
        LogLevel::Debug => "DEBUG"@,
        LogLevel::Trace => "TRACE"@,
    }
}

/// The line that is logged for a message.
pub fn log_line(level: LogLevel, message: &str) -> (r: String)
    ensures
        r@ == "[sqlite-lib "@ + level_name(level) + "] "@ + message@,
{
    let mut r = String::from_str("[sqlite-lib ");
    r.append(
        match level {
            LogLevel::Error => "ERROR",
            LogLevel::Warn => "WARN",
            LogLevel::Info => "INFO",
            LogLevel::Debug => "DEBUG",
            LogLevel::Trace => "TRACE",
        },
    );
    r.append("] ");
    r.append(message);
    r
}

} // verus!
