//! The 16 bytes at the start of a table.

use crate::bcsv::error::{BcsvError, BcsvResult};
use crate::endian::{get_u32, put_u32, u32_bytes, u32_of, Endian};
use vstd::prelude::*;

verus! {

/// The fields of the header.
#[derive(Debug, Clone, Copy, PartialEq, Eq, Structural)]
pub struct BcsvHeader {
    pub row_count: u32,
    pub column_count: u32,
    pub data_offset: u32,
    pub row_size: u32,
}

/// The 16 bytes of a header.
pub open spec fn header_bytes(e: Endian, h: BcsvHeader) -> Seq<u8> {
    u32_bytes(e, h.row_count) + u32_bytes(e, h.column_count) + u32_bytes(e, h.data_offset)
        + u32_bytes(e, h.row_size)
}

/// The header that the start of a buffer holds.
pub open spec fn header_of(e: Endian, b: Seq<u8>) -> BcsvResult<BcsvHeader> {
    if b.len() < 16 {
        Err(BcsvError::UnexpectedEnd)
    } else {
        Ok(
            BcsvHeader {
                row_count: u32_of(e, b.subrange(0, 4)) as u32,
                column_count: u32_of(e, b.subrange(4, 8)) as u32,
                data_offset: u32_of(e, b.subrange(8, 12)) as u32,
                row_size: u32_of(e, b.subrange(12, 16)) as u32,
            },
        )
    }
}

impl BcsvHeader {
    /// Reads the header at the start of `buffer`.
    pub fn read(endian: Endian, buffer: &[u8]) -> (r: BcsvResult<BcsvHeader>)
        ensures
            r == header_of(endian, buffer@),
    {
        if buffer.len() < 16 {
            return Err(BcsvError::UnexpectedEnd);
        }
        Ok(
            BcsvHeader {
                row_count: get_u32(endian, buffer, 0),
                column_count: get_u32(endian, buffer, 4),
                data_offset: get_u32(endian, buffer, 8),
                row_size: get_u32(endian, buffer, 12),
            },
        )
    }

    /// Appends the header's 16 bytes.
    pub fn write(&self, endian: Endian, out: &mut Vec<u8>)
        ensures
            final(out)@ == old(out)@ + header_bytes(endian, *self),
    {
        put_u32(endian, out, self.row_count);
        put_u32(endian, out, self.column_count);
        put_u32(endian, out, self.data_offset);
        put_u32(endian, out, self.row_size);
        assert(out@ =~= old(out)@ + header_bytes(endian, *self));
    }
}

/// A header that was written is read back as it was.
pub proof fn lemma_header_round_trip(e: Endian, h: BcsvHeader, rest: Seq<u8>)
    ensures
        header_of(e, header_bytes(e, h) + rest) == Ok::<BcsvHeader, BcsvError>(h),
{
    let b = header_bytes(e, h) + rest;
    crate::endian::lemma_u32_round_trip(e, h.row_count);
    crate::endian::lemma_u32_round_trip(e, h.column_count);
    crate::endian::lemma_u32_round_trip(e, h.data_offset);
    crate::endian::lemma_u32_round_trip(e, h.row_size);
    assert(b.subrange(0, 4) =~= u32_bytes(e, h.row_count));
    assert(b.subrange(4, 8) =~= u32_bytes(e, h.column_count));
    assert(b.subrange(8, 12) =~= u32_bytes(e, h.data_offset));
    assert(b.subrange(12, 16) =~= u32_bytes(e, h.row_size));
}

} // verus!
