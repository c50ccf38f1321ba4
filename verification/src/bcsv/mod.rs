//! The typed table: columns of fixed width and a pool of strings.

pub mod codec;
pub mod data;
pub mod definition;
pub mod entry;
pub mod error;
pub mod hash;
pub mod header;
pub mod table;
pub mod value;

pub use data::DataType;
pub use definition::ColumnDefinition;
pub use error::{BcsvError, BcsvResult};
pub use hash::{jgadget_hash, old_hash};
pub use table::Table;
pub use value::DataValue;
