//! Componentized SQLite: the logic around the engine.

pub mod bytes;
pub mod codes;
pub mod counters;
pub mod embed;
pub mod embed_laws;
pub mod helper_laws;
pub mod host;
pub mod host_laws;
pub mod host_vtabs;
pub mod install;
pub mod mem;
pub mod pcache;
pub mod policy;
pub mod postlink;
pub mod slices;
pub mod sqlite_lib;
pub mod tables;
pub mod text;
pub mod vfs;
