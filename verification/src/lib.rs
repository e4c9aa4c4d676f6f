//! A replicated table store on a shared log.
//!
//! The crate is layered from the bottom up: [`base`] holds the types that every
//! layer shares and their byte encodings, [`store`] the transactional local
//! state, [`log`] the shared log and its segments, [`engine`] the replicated
//! state machines that play the log into the local state, [`table`] the
//! relational interface, and [`server`] the request handling on top of it.

pub mod base;
pub mod store;
pub mod log;
pub mod engine;
pub mod table;
pub mod server;
