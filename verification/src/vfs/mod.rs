//! The virtual file systems: one that keeps its files in memory, and one whose
//! files another component keeps.

pub mod chunk_laws;
pub mod chunks;
pub mod laws;
pub mod multi_memory_storage;
pub mod opfs;
pub mod opfs_laws;
pub mod randomness;
pub mod shm;
pub mod shm_laws;
pub mod storage;
pub mod tvm;
pub mod wit_tvm_storage;
