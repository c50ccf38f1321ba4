//! What every format in this family offers.

use crate::wii::error::WiiResult;
use vstd::prelude::*;

verus! {

/// A value that can be read from a buffer and written at the end of one.
pub trait FileFormat: Sized {
    /// `r` is an answer that reading `buffer` may give.
    spec fn reads_as(buffer: Seq<u8>, r: WiiResult<Self>) -> bool;

    /// The bytes that the value is written as, or why it cannot be written.
    spec fn image(&self) -> WiiResult<Seq<u8>>;

    /// Reads a value from the whole of `buffer`.
    fn read(buffer: &[u8]) -> (r: WiiResult<Self>)
        ensures
            Self::reads_as(buffer@, r),
    ;

    /// Appends the value's bytes to `out`. Where the value cannot be
    /// written, `out` is left as it was.
    fn write(&self, out: &mut Vec<u8>) -> (r: WiiResult<()>)
        ensures
            match r {
                Ok(_) => self.image() == Ok::<Seq<u8>, crate::wii::error::WiiError>(
                    final(out)@.subrange(old(out)@.len() as int, final(out)@.len() as int),
                ) && old(out)@.is_prefix_of(final(out)@),
                Err(e) => self.image() == Err::<Seq<u8>, crate::wii::error::WiiError>(e) && final(out)@ == old(
                    out,
                )@,
            },
    ;
}

} // verus!
