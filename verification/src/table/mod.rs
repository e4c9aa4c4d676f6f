//! The relational table interface.

pub mod applicator;
pub mod command;
pub mod command_laws;
pub mod encoding_laws;
pub mod key_laws;
pub mod keys;
pub mod laws;
pub mod layer_laws;
pub mod schema;
pub mod table;

pub use applicator::TableApplicator;
pub use command::{TableCommand, TableResponse};
pub use schema::{ColumnDef, ColumnType, Row, TableSchema, Value};
pub use table::DelosTable;
