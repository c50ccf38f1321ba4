//! Formats of a middleware family: the compressed archive with separate
//! directory and entry tables, and the typed table.

pub mod bcsv;
pub mod rarc;
