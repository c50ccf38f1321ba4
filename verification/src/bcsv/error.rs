//! What can go wrong while reading or changing a table.

use crate::bcsv::data::DataType;
use vstd::prelude::*;

verus! {

pub type BcsvResult<T> = Result<T, BcsvError>;

/// Why a table could not be read, written or changed.
#[derive(Debug, Clone, Copy, PartialEq, Eq, Structural)]
#[allow(inconsistent_fields)]
pub enum BcsvError {
    /// The buffer ends before the value does.
    UnexpectedEnd,
    /// A type tag is none of 0 to 7.
    InvaildDataType(u8),
    /// A row has another number of values than the table has columns.
    InvaildRowLength { expected: usize, actual: usize },
    /// A value has another type than its column.
    InvaildRowType { column: usize, expected: DataType, actual: DataType },
    /// Inline strings can be read but not written.
    InlineStringUnsupported,
    /// A table has at most 65535 columns.
    TooManyColumns,
    /// A column's integers are shifted by as many bits as they have, or more.
    ShiftTooLarge(u8),
    /// The table is too large for the 32-bit fields of its header.
    TooLarge,
}

} // verus!
