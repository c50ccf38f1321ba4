//! An index of an archive with a directory table and an entry table, in
//! either byte order: where each file's contents stand, not the contents.

pub mod archive;
pub mod error;
pub mod header;
pub mod node;
pub mod string_table;

pub use archive::{Archive, ArchivedFile};
pub use error::{RarcError, RarcResult};
pub use node::FileAttributes;
