//! The engine as a library: the statement cache behind the extension
//! interface, prepared statements with buffered rows, and the conversions
//! between the interfaces' types.

pub mod errors;
pub mod laws;
pub mod library;
pub mod run;
pub mod statement;
pub mod stmt_cache;
pub mod values;
