//! What can go wrong while an archive is indexed.

use vstd::prelude::*;

verus! {

pub type RarcResult<T> = Result<T, RarcError>;

/// Why an archive could not be indexed.
#[derive(Debug, Clone, Copy, PartialEq, Eq, Structural)]
pub enum RarcError {
    /// The buffer ends before a table does, or a record points outside
    /// its table.
    BadOffset,
    /// The signature at the start is not the format's.
    InvaildMagic,
    /// The first directory record is not the root's.
    FirstDirectoryNotRoot,
    /// A directory's entries run beyond the entry table: the entry with
    /// this index is missing.
    MissingFile { index: usize },
    /// A name is not ASCII, or is not a single path segment.
    NonRepresentableName,
}

} // verus!
