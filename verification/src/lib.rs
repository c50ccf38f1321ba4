//! Readers and writers for console archive containers and a few companion
//! binary formats, with every routine checked against a mathematical model
//! of the bytes it reads or produces.

pub mod canonical;
pub mod endian;
pub mod path;
pub mod trie;
pub mod order;
pub mod tree;
pub mod layout;
pub mod wii;
pub mod jsystem;
pub mod bcsv;
pub mod preorder;
pub mod rarc;
pub mod cli;
