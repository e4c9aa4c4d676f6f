//! What a server offers to its clients.

pub mod config;
pub mod convert;
pub mod laws;
pub mod messages;
pub mod service;

pub use config::ServerConfig;
pub use messages::{Code, Status};
pub use service::RelosTableService;
