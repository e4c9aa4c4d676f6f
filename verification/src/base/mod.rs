//! Types shared by every layer: log positions, errors, log entries, and the
//! byte and text encodings they use.

pub mod codec;
pub mod entry;
pub mod error;
pub mod laws;
pub mod text;
pub mod types;

pub use entry::{Entry, EntryView};
pub use error::{ErrorView, RelosError};
pub use types::{Count, LogPos, ServerId, LOG_POS_BEGIN};
