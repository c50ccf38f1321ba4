//! The 32 bytes at the start of a flat archive.

use crate::endian::{get_u32, put_u32, put_zeros, u32_bytes, u32_of, zeros, Endian};
use crate::wii::error::{WiiError, WiiResult};
use vstd::prelude::*;

verus! {

/// The signature of a flat archive.
pub const U8_MAGIC: u32 = 0x55AA382D;

/// The length of the header in bytes.
pub const U8_HEADER_LEN: usize = 32;

/// The fields of the header.
#[derive(Debug, Clone, Copy, PartialEq, Eq, Structural)]
pub struct U8Header {
    /// Where the root record stands.
    pub root_node: u32,
    /// The length of the record table and the string pool together.
    pub header_size: u32,
    /// Where the data region starts.
    pub data_offset: u32,
}

/// The bytes of a header: the signature, the three fields, and 16 zero bytes.
pub open spec fn header_bytes(order: Endian, h: U8Header) -> Seq<u8> {
    u32_bytes(order, U8_MAGIC) + u32_bytes(order, h.root_node) + u32_bytes(
        order,
        h.header_size,
    ) + u32_bytes(order, h.data_offset) + zeros(16)
}

/// What the start of a buffer holds as a header. A buffer too short for the
/// signature, or for the rest, is refused as out of bounds; a wrong
/// signature as such.
pub open spec fn header_of(order: Endian, b: Seq<u8>) -> WiiResult<U8Header> {
    if b.len() < 4 {
        Err(WiiError::BadOffset)
    } else if u32_of(order, b.subrange(0, 4)) != U8_MAGIC {
        Err(WiiError::InvalidMagic)
    } else if b.len() < 32 {
        Err(WiiError::BadOffset)
    } else {
        Ok(
            U8Header {
                root_node: u32_of(order, b.subrange(4, 8)) as u32,
                header_size: u32_of(order, b.subrange(8, 12)) as u32,
                data_offset: u32_of(order, b.subrange(12, 16)) as u32,
            },
        )
    }
}

impl U8Header {
    /// Reads the header at the start of `buffer`.
    pub fn read(order: Endian, buffer: &[u8]) -> (r: WiiResult<U8Header>)
        ensures
            r == header_of(order, buffer@),
    {
        if buffer.len() < 4 {
            return Err(WiiError::BadOffset);
        }
        if get_u32(order, buffer, 0) != U8_MAGIC {
            return Err(WiiError::InvalidMagic);
        }
        if buffer.len() < 32 {
            return Err(WiiError::BadOffset);
        }
        let root_node: u32 = get_u32(order, buffer, 4);
        let header_size: u32 = get_u32(order, buffer, 8);
        let data_offset: u32 = get_u32(order, buffer, 12);
        Ok(U8Header { root_node, header_size, data_offset })
    }

    /// Appends the header's 32 bytes.
    pub fn write(&self, order: Endian, out: &mut Vec<u8>)
        ensures
            final(out)@ == old(out)@ + header_bytes(order, *self),
    {
        put_u32(order, out, U8_MAGIC);
        put_u32(order, out, self.root_node);
        put_u32(order, out, self.header_size);
        put_u32(order, out, self.data_offset);
        put_zeros(out, 16);
        assert(out@ =~= old(out)@ + header_bytes(order, *self));
    }
}

/// A header that was written is read back as it was.
pub proof fn lemma_header_round_trip(order: Endian, h: U8Header, rest: Seq<u8>)
    ensures
        header_bytes(order, h).len() == 32,
        header_of(order, header_bytes(order, h) + rest) == Ok::<U8Header, WiiError>(h),
{
    let b = header_bytes(order, h) + rest;
    crate::endian::lemma_u32_round_trip(order, U8_MAGIC);
    crate::endian::lemma_u32_round_trip(order, h.root_node);
    crate::endian::lemma_u32_round_trip(order, h.header_size);
    crate::endian::lemma_u32_round_trip(order, h.data_offset);
    assert(b.subrange(0, 4) =~= u32_bytes(order, U8_MAGIC));
    assert(b.subrange(4, 8) =~= u32_bytes(order, h.root_node));
    assert(b.subrange(8, 12) =~= u32_bytes(order, h.header_size));
    assert(b.subrange(12, 16) =~= u32_bytes(order, h.data_offset));
}

} // verus!
