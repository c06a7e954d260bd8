//! Fixing up a linked WebAssembly module: the custom sections that describe its
//! component type are copied over from the unlinked module, and its first memory
//! is exported under the name that component tooling expects.

pub mod encode;
pub mod fixup;
pub mod framing;
pub mod laws;
pub mod parse;
pub mod repeat;
