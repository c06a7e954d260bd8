//! What a caller can rely on of values, errors, statements and the statement cache,
//! whatever the input.

use crate::sqlite_lib::errors::{
    failure_text, first_nul, is_error, is_misuse, nul_text, result_code, DbError, ResultCode,
};
use crate::sqlite_lib::library::{
    lib_aggregate, lib_capability, lib_flags, lib_scalar, pol_capability, pol_method, same_http,
    ty_flags, LibCapability, LibFlags, LibHttpPolicy, LibMethod, MdAggregateSpec, MdScalarSpec,
    PolCapability, PolHttpPolicy, TyFlags,
};
use crate::sqlite_lib::run::{blank, column_value, level_name, LogLevel, MultiRun};
use crate::sqlite_lib::statement::{padded, place};
use crate::sqlite_lib::stmt_cache::{
    all_raws, least_recent, memory_path, CacheState, CachedStmt, StmtCache, STMT_CACHE_LIMIT,
};
use crate::sqlite_lib::values::{hl_of, spi_of, DbValue, HlValue, SpiValue};
use crate::text::{
    decimal, is_white, lemma_decimal_injective, lemma_signed_decimal_injective, lossy_text,
    signed_decimal, trim_end, trim_start,
};
use vstd::prelude::*;
use vstd::string::*;

verus! {

/// A column's value loses nothing: an integer is exactly the integer that the engine
/// has, a floating-point number has exactly its bits, and a blob has exactly its
/// bytes; only what has no type is null.
pub proof fn lemma_columns_lose_nothing(
    kind: i32,
    integer: i64,
    bits: u64,
    bytes: Option<Seq<u8>>,
    r: DbValue,
)
    requires
        column_value(kind, integer, bits, bytes, r),
    ensures
        kind == 1 <==> r is Integer,
        kind == 2 <==> r is Real,
        kind == 3 <==> r is Text,
        kind == 4 <==> r is Blob,
        r matches DbValue::Integer(n) ==> n == integer,
        r matches DbValue::Real(b) ==> b == bits,
        r matches DbValue::Text(s) ==> (bytes is Some ==> s@ == lossy_text(bytes->0)) && (bytes is
            None ==> s@.len() == 0),
        r matches DbValue::Blob(v) ==> (bytes is Some ==> v@ == bytes->0) && (bytes is None
            ==> v@.len() == 0),
{
}

/// Two columns with different integers, different bits or different bytes have
/// different values.
pub proof fn lemma_columns_differ(
    kind: i32,
    integer1: i64,
    integer2: i64,
    bits1: u64,
    bits2: u64,
    bytes1: Seq<u8>,
    bytes2: Seq<u8>,
    r1: DbValue,
    r2: DbValue,
)
    requires
        column_value(kind, integer1, bits1, Some(bytes1), r1),
        column_value(kind, integer2, bits2, Some(bytes2), r2),
        r1 == r2,
    ensures
        kind == 1 ==> integer1 == integer2,
        kind == 2 ==> bits1 == bits2,
        kind == 4 ==> bytes1 == bytes2,
{
}

/// A value keeps its kind and its content in every interface.
pub proof fn lemma_values_keep_their_content(v: DbValue)
    ensures
        v is Null <==> spi_of(v) is Null,
        v is Null <==> hl_of(v) is Null,
        v matches DbValue::Integer(n) ==> spi_of(v) == SpiValue::Integer(n) && hl_of(v)
            == HlValue::Integer(n),
        v matches DbValue::Real(b) ==> spi_of(v) == SpiValue::Real(b) && hl_of(v)
            == HlValue::Real(b),
        v matches DbValue::Text(s) ==> spi_of(v) == SpiValue::Text(s) && hl_of(v)
            == HlValue::Text(s),
        v matches DbValue::Blob(b) ==> spi_of(v) == SpiValue::Blob(b) && hl_of(v)
            == HlValue::Blob(b),
{
}

/// An error tells the whole code and its low byte, and carries its text unchanged.
pub proof fn lemma_errors_tell_their_code(e: DbError, rc: i32, message: Seq<char>)
    requires
        is_error(e, rc, message),
    ensures
        e.extended_code == rc,
        0 <= e.code < 256,
        rc >= 0 ==> e.code == rc % 256,
        e.message@ == message,
{
    assert(0 <= rc & 0xff < 256) by (bit_vector);
    assert(rc >= 0 ==> rc & 0xff == rc % 256) by (bit_vector);
}

/// A misuse has the code 21 both ways.
pub proof fn lemma_misuses_tell_their_code(e: DbError, message: Seq<char>)
    requires
        is_misuse(e, message),
    ensures
        e.code == 21,
        e.extended_code == 21,
        e.message@ == message,
{
}

/// The engine's own text is shown as it is. Where there is none, the text names the
/// call first, and tells different codes apart.
pub proof fn lemma_failures_tell_their_code(
    own: Option<Seq<u8>>,
    what: Seq<char>,
    rc1: i32,
    rc2: i32,
)
    ensures
        own is Some ==> failure_text(own, what, rc1) == lossy_text(own->0),
        own is None ==> what.is_prefix_of(failure_text(own, what, rc1)),
        own is None && failure_text(own, what, rc1) == failure_text(own, what, rc2) ==> rc1 == rc2,
        own is None ==> failure_text(own, what, rc1) == what + " failed (code "@ + signed_decimal(
            rc1 as int,
        ) + ")"@,
{
    if own is None {
        let a = failure_text(own, what, rc1);
        let b = failure_text(own, what, rc2);
        let head = what + " failed (code "@;
        if a == b {
            let da = signed_decimal(rc1 as int);
            let db = signed_decimal(rc2 as int);
            assert(a.len() == head.len() + da.len() + ")"@.len());
            assert(b.len() == head.len() + db.len() + ")"@.len());
            assert(a.subrange(head.len() as int, (head.len() + da.len()) as int) =~= da);
            assert(b.subrange(head.len() as int, (head.len() + db.len()) as int) =~= db);
            lemma_signed_decimal_injective(rc1 as int, rc2 as int);
        }
    }
}

/// A NUL in a statement is told by the place of the first one.
pub proof fn lemma_nul_is_told(b: Seq<u8>, i: int, j: int)
    ensures
        first_nul(b, i) ==> 0 <= i < b.len() && b[i] == 0,
        first_nul(b, i) && 0 <= j < i ==> b[j] != 0,
        first_nul(b, i) && first_nul(b, j) ==> i == j,
        0 <= i && 0 <= j && nul_text(i as nat) == nul_text(j as nat) ==> i == j,
{
    let p = "nul byte found in provided data at position: "@;
    if 0 <= i && 0 <= j && nul_text(i as nat) == nul_text(j as nat) {
        assert(nul_text(i as nat).skip(p.len() as int) =~= decimal(i as nat));
        assert(nul_text(j as nat).skip(p.len() as int) =~= decimal(j as nat));
        lemma_decimal_injective(i as nat, j as nat);
    }
}

/// Every primary code has a low-level code of its own; what has none is an error.
pub proof fn lemma_low_level_codes(code: i32)
    ensures
        result_code(code) == ResultCode::Busy <==> code == 5,
        result_code(code) == ResultCode::Locked <==> code == 6,
        result_code(code) == ResultCode::Nomem <==> code == 7,
        result_code(code) == ResultCode::Readonly <==> code == 8,
        result_code(code) == ResultCode::Interrupt <==> code == 9,
        result_code(code) == ResultCode::Ioerr <==> code == 10,
        result_code(code) == ResultCode::Corrupt <==> code == 11,
        result_code(code) == ResultCode::Notfound <==> code == 12,
        result_code(code) == ResultCode::Full <==> code == 13,
        result_code(code) == ResultCode::Cantopen <==> code == 14,
        result_code(code) == ResultCode::Protocol <==> code == 15,
        result_code(code) == ResultCode::Schema <==> code == 17,
        result_code(code) == ResultCode::Toobig <==> code == 18,
        result_code(code) == ResultCode::Constraint <==> code == 19,
        result_code(code) == ResultCode::Mismatch <==> code == 20,
        result_code(code) == ResultCode::Misuse <==> code == 21,
        result_code(code) == ResultCode::Nolfs <==> code == 22,
        result_code(code) == ResultCode::Auth <==> code == 23,
        result_code(code) == ResultCode::Range <==> code == 25,
        result_code(code) == ResultCode::Notadb <==> code == 26,
        result_code(code) != ResultCode::Success,
{
}

/// Binding at a position puts the value there and nowhere else: what was bound at
/// other positions stays, and positions before it that were not bound are null. The
/// first position is 1, and 0 counts as 1.
pub proof fn lemma_binding_puts_a_value_in_its_place(
    s: Seq<DbValue>,
    index: i32,
    v: DbValue,
    j: int,
)
    requires
        index >= 0,
    ensures
        ({
            let at = if index == 0 {
                0
            } else {
                index - 1
            };
            let r = padded(s, (place(index) + 1) as nat).update(place(index), v);
            &&& r[at] == v
            &&& r.len() >= s.len()
            &&& r.len() == s.len() || r.len() == at + 1
            &&& 0 <= j < s.len() && j != at ==> r[j] == s[j]
            &&& s.len() <= j < at ==> r[j] is Null
        }),
{
}

/// Looking for a statement touches that statement alone: a statement of the current
/// connection keeps its number and becomes the most recently used one, one of a
/// former connection is gone, and every other statement stays as it is.
pub proof fn lemma_what_a_lookup_changes(s: CacheState, sql: Seq<char>)
    ensures
        s.looked_up(sql).epoch == s.epoch,
        s.counter < u64::MAX ==> s.looked_up(sql).counter == s.counter + 1,
        s.hits(sql) <==> s.map.contains_key(sql) && s.map[sql].epoch == s.epoch,
        s.map.contains_key(sql) && s.map[sql].epoch == s.epoch ==> {
            &&& s.looked_up(sql).map.contains_key(sql)
            &&& s.looked_up(sql).map[sql].raw == s.map[sql].raw
            &&& s.looked_up(sql).map[sql].epoch == s.epoch
            &&& s.looked_up(sql).map[sql].lru == s.looked_up(sql).counter
        },
        !(s.map.contains_key(sql) && s.map[sql].epoch == s.epoch) ==> !s.looked_up(
            sql,
        ).map.contains_key(sql),
        forall|x: Seq<char>|
            x != sql ==> (#[trigger] s.looked_up(sql).map.contains_key(x) <==> s.map.contains_key(x))
                && s.looked_up(sql).map[x] == s.map[x],
{
}

/// Keeping a statement touches no other one, but for one that was used no later than
/// any, and only where 256 are kept already; that one is told to be finalized.
pub proof fn lemma_what_keeping_changes(
    s: CacheState,
    sql: Seq<char>,
    raw: u64,
    victim: Option<u64>,
    after: CacheState,
)
    requires
        s.keeps(sql, raw, victim, after),
        !s.map.contains_key(sql),
    ensures
        after.epoch == s.epoch,
        after.counter == s.counter,
        after.map.contains_key(sql),
        after.map[sql].raw == raw,
        after.map[sql].epoch == s.epoch,
        after.map[sql].lru == s.counter,
        s.map.dom().len() < 256 ==> victim is None && forall|x: Seq<char>|
            x != sql ==> (#[trigger] after.map.contains_key(x) <==> s.map.contains_key(x))
                && after.map[x] == s.map[x],
        s.map.dom().len() >= 256 ==> exists|y: Seq<char>|
            {
                &&& #[trigger] s.map.contains_key(y)
                &&& victim == Some(s.map[y].raw)
                &&& !after.map.contains_key(y)
                &&& forall|x: Seq<char>| #[trigger]
                    s.map.contains_key(x) ==> s.map[y].lru <= s.map[x].lru
                &&& forall|x: Seq<char>|
                    x != sql && x != y ==> (#[trigger] after.map.contains_key(x)
                        <==> s.map.contains_key(x)) && after.map[x] == s.map[x]
            },
        STMT_CACHE_LIMIT == 256,
{
    if s.map.dom().len() >= 256 {
        let entry = CachedStmt { raw, epoch: s.epoch, lru: s.counter };
        let y = choose|y: Seq<char>|
            {
                &&& #[trigger] least_recent(s.map, y)
                &&& victim == Some(s.map[y].raw)
                &&& after.map == s.map.remove(y).insert(sql, entry)
            };
        assert(s.map.contains_key(y));
        assert(y != sql);
    }
}

/// Emptying the cache gives the number of every statement that was kept, and no
/// other number.
pub proof fn lemma_emptying_gives_every_statement(
    m: Map<Seq<char>, CachedStmt>,
    r: Seq<u64>,
    sql: Seq<char>,
    i: int,
)
    requires
        all_raws(m, r),
        m.dom().finite(),
    ensures
        r.len() == m.dom().len(),
        m.contains_key(sql) ==> r.contains(m[sql].raw),
        0 <= i < r.len() ==> exists|x: Seq<char>| #[trigger] m.contains_key(x) && m[x].raw == r[i],
{
    let order = choose|order: Seq<Seq<char>>|
        {
            &&& #[trigger] order.no_duplicates()
            &&& order.to_set() == m.dom()
            &&& r == order.map_values(|x: Seq<char>| m[x].raw)
        };
    order.unique_seq_to_set();
    if m.contains_key(sql) {
        assert(order.to_set().contains(sql));
        let j = choose|j: int| 0 <= j < order.len() && order[j] == sql;
        assert(r[j] == m[sql].raw);
    }
    if 0 <= i < r.len() {
        assert(order.to_set().contains(order[i]));
        assert(m.contains_key(order[i]));
    }
}

/// A database in memory is what the empty path and `:memory:` stand for, and no
/// other path.
pub proof fn lemma_memory_paths(path: Seq<char>)
    ensures
        memory_path(path) <==> path.len() == 0 || path == ":memory:"@,
{
}

/// White space at the start goes, and nothing behind it.
proof fn lemma_trim_start(s: Seq<char>)
    ensures
        trim_start(s).len() <= s.len(),
        trim_start(s) == s.skip(s.len() - trim_start(s).len()),
        forall|i: int| 0 <= i < s.len() - trim_start(s).len() ==> is_white(#[trigger] s[i]),
        trim_start(s).len() > 0 ==> !is_white(trim_start(s)[0]),
    decreases s.len(),
{
    if s.len() > 0 && is_white(s[0]) {
        let t = s.skip(1);
        lemma_trim_start(t);
        assert(trim_start(s) =~= s.skip(s.len() - trim_start(s).len()));
        assert forall|i: int| 0 <= i < s.len() - trim_start(s).len() implies is_white(
            #[trigger] s[i],
        ) by {
            if i > 0 {
                assert(t[i - 1] == s[i]);
            }
        }
    } else {
        assert(s.skip(0) =~= s);
    }
}

/// White space at the end goes, and nothing before it.
proof fn lemma_trim_end(s: Seq<char>)
    ensures
        trim_end(s).len() <= s.len(),
        trim_end(s) == s.take(trim_end(s).len() as int),
        forall|i: int| trim_end(s).len() <= i < s.len() ==> is_white(#[trigger] s[i]),
        trim_end(s).len() > 0 ==> !is_white(trim_end(s).last()),
    decreases s.len(),
{
    if s.len() > 0 && is_white(s.last()) {
        let t = s.drop_last();
        lemma_trim_end(t);
        assert(trim_end(s) =~= s.take(trim_end(s).len() as int));
        assert forall|i: int| trim_end(s).len() <= i < s.len() implies is_white(#[trigger] s[i]) by {
            if i < s.len() - 1 {
                assert(t[i] == s[i]);
            }
        }
    } else {
        assert(s.take(s.len() as int) =~= s);
    }
}

/// A text without the white space around it: what is left is one piece of the text,
/// starts and ends with something else than white space, and everything around it is
/// white space.
pub proof fn lemma_trimmed_texts(s: Seq<char>)
    ensures
        ({
            let t = trim_end(trim_start(s));
            let from = s.len() - trim_start(s).len();
            &&& t.len() <= s.len()
            &&& 0 <= from && from + t.len() <= s.len()
            &&& t == s.subrange(from, from + t.len())
            &&& forall|i: int|
                0 <= i < from || from + t.len() <= i < s.len() ==> is_white(#[trigger] s[i])
            &&& t.len() > 0 ==> !is_white(t[0]) && !is_white(t.last())
        }),
{
    let a = trim_start(s);
    let t = trim_end(a);
    let from = s.len() - a.len();
    lemma_trim_start(s);
    lemma_trim_end(a);
    assert(t =~= s.subrange(from, from + t.len()));
    assert forall|i: int| 0 <= i < from || from + t.len() <= i < s.len() implies is_white(
        #[trigger] s[i],
    ) by {
        if i >= from {
            assert(a[i - from] == s[i]);
        }
    }
}

/// A text is blank exactly if each of its characters is white space; so a statement
/// is never skipped for the white space around it.
pub proof fn lemma_blank_texts(s: Seq<char>)
    ensures
        blank(s) <==> forall|i: int| 0 <= i < s.len() ==> is_white(#[trigger] s[i]),
{
    let a = trim_start(s);
    lemma_trim_start(s);
    lemma_trim_end(a);
    if blank(s) {
        assert forall|i: int| 0 <= i < s.len() implies is_white(#[trigger] s[i]) by {
            let k = s.len() - a.len();
            if i >= k {
                assert(a[i - k] == s[i]);
            }
        }
    }
    if forall|i: int| 0 <= i < s.len() ==> is_white(#[trigger] s[i]) {
        if a.len() > 0 {
            assert(a[0] == s[s.len() - a.len()]);
        }
        assert(a.len() == 0);
    }
}

/// The severities have the names that they are called by, all different.
pub proof fn lemma_severities(level: LogLevel)
    ensures
        level == LogLevel::Error ==> level_name(level) == "ERROR"@,
        level == LogLevel::Warn ==> level_name(level) == "WARN"@,
        level == LogLevel::Info ==> level_name(level) == "INFO"@,
        level == LogLevel::Debug ==> level_name(level) == "DEBUG"@,
        level == LogLevel::Trace ==> level_name(level) == "TRACE"@,
{
}

/// A capability is called the same on both sides.
pub proof fn lemma_capabilities_keep_their_names(c: LibCapability, p: PolCapability)
    requires
        p == pol_capability(c) || c == lib_capability(p),
    ensures
        c is Spi <==> p is Spi,
        c is Prepared <==> p is Prepared,
        c is Transaction <==> p is Transaction,
        c is Schema <==> p is Schema,
        c is State <==> p is State,
        c is Cache <==> p is Cache,
        c is Random <==> p is Random,
        c is Text <==> p is Text,
        c is Hashing <==> p is Hashing,
        c is Encoding <==> p is Encoding,
        c is Http <==> p is Http,
        c is Dns <==> p is Dns,
{
}

/// An HTTP method is called the same on both sides.
pub proof fn lemma_methods_keep_their_names(m: LibMethod)
    ensures
        m is Get <==> pol_method(m) is Get,
        m is Head <==> pol_method(m) is Head,
        m is Post <==> pol_method(m) is Post,
        m is Put <==> pol_method(m) is Put,
        m is Delete <==> pol_method(m) is Delete,
        m is Connect <==> pol_method(m) is Connect,
        m is Options <==> pol_method(m) is Options,
        m is Trace <==> pol_method(m) is Trace,
        m is Patch <==> pol_method(m) is Patch,
{
}

/// Each flag of a function is set on one side exactly if it is on the other.
pub proof fn lemma_flags_keep_their_names(f: LibFlags, t: TyFlags)
    requires
        t == ty_flags(f) || f == lib_flags(t),
    ensures
        f.deterministic == t.deterministic,
        f.direct_only == t.direct_only,
        f.innocuous == t.innocuous,
{
}

/// Functions are told of as they are.
pub proof fn lemma_functions_are_told_of_as_they_are(s: MdScalarSpec, a: MdAggregateSpec)
    ensures
        lib_scalar(s).id == s.id,
        lib_scalar(s).name == s.name,
        lib_scalar(s).num_args == s.num_args,
        lib_scalar(s).func_flags.deterministic == s.func_flags.deterministic,
        lib_scalar(s).func_flags.direct_only == s.func_flags.direct_only,
        lib_scalar(s).func_flags.innocuous == s.func_flags.innocuous,
        lib_aggregate(a).id == a.id,
        lib_aggregate(a).name == a.name,
        lib_aggregate(a).num_args == a.num_args,
        lib_aggregate(a).is_window == a.is_window,
        lib_aggregate(a).func_flags.deterministic == a.func_flags.deterministic,
        lib_aggregate(a).func_flags.direct_only == a.func_flags.direct_only,
        lib_aggregate(a).func_flags.innocuous == a.func_flags.innocuous,
{
}

/// HTTP traffic is held to the same on both sides: the same hosts, as many methods
/// in the same order, and the same limits.
pub proof fn lemma_traffic_is_held_to_the_same(h: LibHttpPolicy, r: PolHttpPolicy, i: int)
    requires
        same_http(h, r),
    ensures
        r.allowed_hosts == h.allowed_hosts,
        r.max_body_bytes == h.max_body_bytes,
        r.timeout_ms == h.timeout_ms,
        r.allowed_methods is Some <==> h.allowed_methods is Some,
        h.allowed_methods is Some ==> r.allowed_methods->0@.len() == h.allowed_methods->0@.len(),
        h.allowed_methods is Some && 0 <= i < h.allowed_methods->0@.len() ==> pol_method(
            h.allowed_methods->0@[i],
        ) == r.allowed_methods->0@[i],
{
}

/// What is left of a text is everything from the place that the walk has come to, and
/// a cache is its statements, its counter and its epoch.
pub proof fn lemma_what_is_left<R>(w: MultiRun<R>, c: StmtCache)
    ensures
        w.rest() == w.bytes().skip(w.at()),
        c.state().map == c@,
        c.state().counter == c.counter(),
        c.state().epoch == c.epoch(),
{
}

} // verus!
