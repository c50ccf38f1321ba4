//! What can go wrong while reading or writing these formats.

use vstd::prelude::*;

verus! {

pub type WiiResult<T> = Result<T, WiiError>;

/// Why a buffer could not be read, or a value not be written.
#[derive(Debug, Clone, Copy, PartialEq, Eq, Structural)]
pub enum WiiError {
    /// The signature at the start is not the format's.
    InvalidMagic,
    /// The stored hash is not the hash of the stored data.
    HashMismatch,
    /// A type tag has no meaning in the format.
    InvalidType,
    /// A record points outside the buffer or outside its table, or an offset
    /// does not fit the field that has to hold it.
    BadOffset,
    /// There are more entries than the format can count.
    TooManyEntries,
    /// A name cannot be written in the format's character set, or a stored
    /// name is not a single path segment.
    NonRepresentableName,
    /// An entry's directory is missing from the tree, is a file, or does not
    /// directly precede its contents in the order of paths.
    MissingDirectory,
    /// Text that should be UTF-16 is not.
    Utf16Error,
    /// Text that should be UTF-8 is not.
    Utf8Error,
}

impl WiiError {
    /// A sentence that says what went wrong.
    pub fn message(&self) -> (r: &'static str)
        ensures
            r@ == match self {
                WiiError::InvalidMagic => "Magic number didn't match."@,
                WiiError::HashMismatch => "The read and calculated hashes didn't match."@,
                WiiError::InvalidType => "Invalid or unknown type supplied."@,
                WiiError::BadOffset => "An offset points outside its table or buffer."@,
                WiiError::TooManyEntries => "The archive has too many entries."@,
                WiiError::NonRepresentableName => "A name cannot be represented."@,
                WiiError::MissingDirectory => "An entry's directory is not open where the entry stands."@,
                WiiError::Utf16Error => "invalid utf-16: lone surrogate found"@,
                WiiError::Utf8Error => "invalid utf-8 sequence"@,
            },
    {
        match self {
            WiiError::InvalidMagic => "Magic number didn't match.",
            WiiError::HashMismatch => "The read and calculated hashes didn't match.",
            WiiError::InvalidType => "Invalid or unknown type supplied.",
            WiiError::BadOffset => "An offset points outside its table or buffer.",
            WiiError::TooManyEntries => "The archive has too many entries.",
            WiiError::NonRepresentableName => "A name cannot be represented.",
            WiiError::MissingDirectory => "An entry's directory is not open where the entry stands.",
            WiiError::Utf16Error => "invalid utf-16: lone surrogate found",
            WiiError::Utf8Error => "invalid utf-8 sequence",
        }
    }
}

} // verus!
