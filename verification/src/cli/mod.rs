//! The decisions of the command line tools, apart from what they read and
//! print.

pub mod columns;
pub mod convert;
pub mod listing;
pub mod merge;
pub mod numbers;
pub mod options;
