//! What can go wrong while reading or writing an archive.

use crate::endian::Endian;
use vstd::prelude::*;

verus! {

#[verifier::external_type_specification]
#[verifier::external_body]
pub struct ExYaz0Error(yaz0::Error);

pub type RarcResult<T> = Result<T, RarcError>;

/// Why an archive could not be read or written.
#[derive(Debug)]
pub enum RarcError {
    /// The compressor failed.
    Yaz0Error(yaz0::Error),
    /// The signature at the start is this value, not the format's.
    InvalidMagic(u32),
    /// The first directory record is not the root's.
    FirstDirectoryNotRoot,
    /// A record points outside the buffer or outside its table, or an
    /// offset does not fit the field that has to hold it.
    BadOffset,
    /// There are more entries than 16-bit indices can count.
    TooManyEntries,
    /// The compression quality is not one of 1 to 10.
    UnsupportedCompression,
    /// A name cannot be written in the format's character set, or a stored
    /// name is not a single path segment.
    NonRepresentableName,
    /// An entry's directory is missing from the tree, is a file, or does
    /// not directly precede its contents in the order of paths.
    MissingDirectory,
}

} // verus!
