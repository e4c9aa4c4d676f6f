//! Transactional local state: the store traits and an in-memory store.

pub mod laws;
pub mod memory;
pub mod sorted_map;
pub mod traits;

pub use memory::{MemoryReadTx, MemoryStore, MemoryWriteTx};
pub use traits::{LocalStore, ReadTransaction, WriteTransaction};
