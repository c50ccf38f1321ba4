//! Structures of a disc image.

pub mod header;
pub mod partition_table;
pub mod ticket;
pub mod title;
