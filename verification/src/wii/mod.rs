//! Formats of one console family: the flat archive, and wrappers and disc
//! structures around it.

pub mod brlyt;
pub mod disc;
pub mod error;
pub mod format;
pub mod imd5;
pub mod imet;
pub mod u8_archive;
pub mod utils;

pub use error::{WiiError, WiiResult};
pub use format::FileFormat;
