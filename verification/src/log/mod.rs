//! The shared log: loglets, the chain that strings them together, and the
//! virtual log that presents the chain as one log.

pub mod chain;
pub mod coherence;
pub mod laws;
pub mod loglet;
pub mod memory_loglet;
pub mod metastore;
pub mod native_loglet;
pub mod quorum_laws;
pub mod replica;
pub mod virtual_log;
pub mod virtual_view;

pub use chain::{ChainSegment, LogChain};
pub use loglet::{LogView, Loglet};
pub use memory_loglet::{MemoryLoglet, MemoryLogletFactory};
pub use metastore::{MemoryMetaStore, MetaStore};
pub use native_loglet::{NativeLoglet, NativeLogletFactory};
pub use virtual_log::{LogletFactory, VirtualLog};
