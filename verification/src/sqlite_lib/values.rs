//! The values of the interfaces. They have the same shape everywhere; a
//! floating-point value is passed on as its bit pattern.

use vstd::prelude::*;

verus! {

/// A value of the connection's.
#[derive(Debug)]
pub enum DbValue {
    Null,
    Integer(i64),
    Real(u64),
    Text(String),
    Blob(Vec<u8>),
}

/// A value of the extension interface's.
#[derive(Debug)]
pub enum SpiValue {
    Null,
    Integer(i64),
    Real(u64),
    Text(String),
    Blob(Vec<u8>),
}

/// A value of the high-level interface's.
#[derive(Debug)]
pub enum HlValue {
    Null,
    Integer(i64),
    Real(u64),
    Text(String),
    Blob(Vec<u8>),
}

/// The connection's value, for the extension interface.
pub open spec fn spi_of(v: DbValue) -> SpiValue {
    match v {
        DbValue::Null => SpiValue::Null,
        DbValue::Integer(i) => SpiValue::Integer(i),
        DbValue::Real(r) => SpiValue::Real(r),
        DbValue::Text(s) => SpiValue::Text(s),
        DbValue::Blob(b) => SpiValue::Blob(b),
    }
}

/// The connection's value, for the high-level interface.
pub open spec fn hl_of(v: DbValue) -> HlValue {
    match v {
        DbValue::Null => HlValue::Null,
        DbValue::Integer(i) => HlValue::Integer(i),
        DbValue::Real(r) => HlValue::Real(r),
        DbValue::Text(s) => HlValue::Text(s),
        DbValue::Blob(b) => HlValue::Blob(b),
    }
}

/// The connection's value, for the extension interface.
pub fn db_to_spi_value(v: DbValue) -> (r: SpiValue)
    ensures
        r == spi_of(v),
        v is Null ==> r is Null,
        v matches DbValue::Integer(n) ==> r == SpiValue::Integer(n),
        v matches DbValue::Real(b) ==> r == SpiValue::Real(b),
        v matches DbValue::Text(s) ==> r == SpiValue::Text(s),
        v matches DbValue::Blob(b) ==> r == SpiValue::Blob(b),
{
    match v {
        DbValue::Null => SpiValue::Null,
        DbValue::Integer(i) => SpiValue::Integer(i),
        DbValue::Real(r) => SpiValue::Real(r),
        DbValue::Text(s) => SpiValue::Text(s),
        DbValue::Blob(b) => SpiValue::Blob(b),
    }
}

/// The extension interface's value, for the connection.
pub fn spi_value_to_db(v: SpiValue) -> (r: DbValue)
    ensures
        spi_of(r) == v,
        v is Null ==> r is Null,
        v matches SpiValue::Integer(n) ==> r == DbValue::Integer(n),
        v matches SpiValue::Real(b) ==> r == DbValue::Real(b),
        v matches SpiValue::Text(s) ==> r == DbValue::Text(s),
        v matches SpiValue::Blob(b) ==> r == DbValue::Blob(b),
{
    match v {
        SpiValue::Null => DbValue::Null,
        SpiValue::Integer(i) => DbValue::Integer(i),
        SpiValue::Real(r) => DbValue::Real(r),
        SpiValue::Text(s) => DbValue::Text(s),
        SpiValue::Blob(b) => DbValue::Blob(b),
    }
}

/// The connection's value, for the high-level interface.
pub fn db_to_hl_value(v: DbValue) -> (r: HlValue)
    ensures
        r == hl_of(v),
        v is Null ==> r is Null,
        v matches DbValue::Integer(n) ==> r == HlValue::Integer(n),
        v matches DbValue::Real(b) ==> r == HlValue::Real(b),
        v matches DbValue::Text(s) ==> r == HlValue::Text(s),
        v matches DbValue::Blob(b) ==> r == HlValue::Blob(b),
{
    match v {
        DbValue::Null => HlValue::Null,
        DbValue::Integer(i) => HlValue::Integer(i),
        DbValue::Real(r) => HlValue::Real(r),
        DbValue::Text(s) => HlValue::Text(s),
        DbValue::Blob(b) => HlValue::Blob(b),
    }
}

/// The high-level interface's value, for the connection.
pub fn hl_value_to_db(v: HlValue) -> (r: DbValue)
    ensures
        hl_of(r) == v,
        v is Null ==> r is Null,
        v matches HlValue::Integer(n) ==> r == DbValue::Integer(n),
        v matches HlValue::Real(b) ==> r == DbValue::Real(b),
        v matches HlValue::Text(s) ==> r == DbValue::Text(s),
        v matches HlValue::Blob(b) ==> r == DbValue::Blob(b),
{
    match v {
        HlValue::Null => DbValue::Null,
        HlValue::Integer(i) => DbValue::Integer(i),
        HlValue::Real(r) => DbValue::Real(r),
        HlValue::Text(s) => DbValue::Text(s),
        HlValue::Blob(b) => DbValue::Blob(b),
    }
}

/// A value that goes through an interface and back is the same value.
pub proof fn lemma_values_round_trip(a: DbValue, b: DbValue)
    ensures
        spi_of(a) == spi_of(b) ==> a == b,
        hl_of(a) == hl_of(b) ==> a == b,
{
}

} // verus!
