//! The page cache: a bounded pool of resident page slots in front of a
//! cold-storage region.

pub mod cache;
pub mod content;
pub mod control;
pub mod laws;
pub mod lru;
pub mod multi_memory_region;
pub mod region;
pub mod wit_tvm_region;
