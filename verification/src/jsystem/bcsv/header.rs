//! The 16 bytes at the start of a table.

use crate::endian::{get_u32, put_u32, u32_bytes, u32_of, Endian};
use crate::jsystem::bcsv::error::{BcsvError, BcsvResult};
use vstd::prelude::*;

verus! {

/// The fields of the header.
#[derive(Debug, Clone, Copy, PartialEq, Eq, Structural)]
pub struct BcsvHeader {
    pub entry_count: u32,
    pub field_count: u32,
    pub data_offset: u32,
    pub entry_size: u32,
}

/// The 16 bytes of a header.
pub open spec fn header_bytes(h: BcsvHeader) -> Seq<u8> {
    u32_bytes(Endian::Big, h.entry_count) + u32_bytes(Endian::Big, h.field_count) + u32_bytes(
        Endian::Big,
        h.data_offset,
    ) + u32_bytes(Endian::Big, h.entry_size)
}

/// The header that the start of a buffer holds.
pub open spec fn header_of(b: Seq<u8>) -> BcsvResult<BcsvHeader> {
    if b.len() < 16 {
        Err(BcsvError::UnexpectedEnd)
    } else {
        Ok(
            BcsvHeader {
                entry_count: u32_of(Endian::Big, b.subrange(0, 4)) as u32,
                field_count: u32_of(Endian::Big, b.subrange(4, 8)) as u32,
                data_offset: u32_of(Endian::Big, b.subrange(8, 12)) as u32,
                entry_size: u32_of(Endian::Big, b.subrange(12, 16)) as u32,
            },
        )
    }
}

impl BcsvHeader {
    /// Reads the header at the start of `buffer`.
    pub fn read(buffer: &[u8]) -> (r: BcsvResult<BcsvHeader>)
        ensures
            r == header_of(buffer@),
    {
        if buffer.len() < 16 {
            return Err(BcsvError::UnexpectedEnd);
        }
        Ok(
            BcsvHeader {
                entry_count: get_u32(Endian::Big, buffer, 0),
                field_count: get_u32(Endian::Big, buffer, 4),
                data_offset: get_u32(Endian::Big, buffer, 8),
                entry_size: get_u32(Endian::Big, buffer, 12),
            },
        )
    }

    /// Appends the header's 16 bytes.
    pub fn write(&self, out: &mut Vec<u8>)
        ensures
            final(out)@ == old(out)@ + header_bytes(*self),
    {
        put_u32(Endian::Big, out, self.entry_count);
        put_u32(Endian::Big, out, self.field_count);
        put_u32(Endian::Big, out, self.data_offset);
        put_u32(Endian::Big, out, self.entry_size);
        assert(out@ =~= old(out)@ + header_bytes(*self));
    }
}

} // verus!
