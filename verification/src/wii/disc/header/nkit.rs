//! The header that a shrunk disc image carries.

use crate::endian::{get_u32, put_slice, put_u32, u32_bytes, u32_of, Endian};
use crate::wii::error::{WiiError, WiiResult};
use vstd::prelude::*;

verus! {

/// The fields of the header of a shrunk image.
#[derive(Debug, PartialEq, Eq, Clone, Copy)]
pub struct NKitHeader {
    pub version: [u8; 4],
    pub original_crc: u32,
    pub nkit_crc: u32,
    pub source_image_length: u32,
    pub forced_junk_id: u32,
    pub update_partition_crc: u32,
}

/// The letters NKIT.
pub open spec fn nkit_magic() -> Seq<u8> {
    seq![0x4Eu8, 0x4Bu8, 0x49u8, 0x54u8]
}

/// What the contracts see of a header.
pub open spec fn nkit_fields(h: NKitHeader) -> (Seq<u8>, int, int, int, int, int) {
    (
        h.version@,
        h.original_crc as int,
        h.nkit_crc as int,
        h.source_image_length as int,
        h.forced_junk_id as int,
        h.update_partition_crc as int,
    )
}

/// The fields of the header that the 28 bytes at `pos` hold.
pub open spec fn nkit_fields_at(b: Seq<u8>, pos: int) -> (Seq<u8>, int, int, int, int, int) {
    (
        b.subrange(pos + 4, pos + 8),
        u32_of(Endian::Big, b.subrange(pos + 8, pos + 12)),
        u32_of(Endian::Big, b.subrange(pos + 12, pos + 16)),
        u32_of(Endian::Big, b.subrange(pos + 16, pos + 20)),
        u32_of(Endian::Big, b.subrange(pos + 20, pos + 24)),
        u32_of(Endian::Big, b.subrange(pos + 24, pos + 28)),
    )
}

/// The 28 bytes of a header.
pub open spec fn nkit_bytes(h: NKitHeader) -> Seq<u8> {
    nkit_magic() + h.version@ + u32_bytes(Endian::Big, h.original_crc) + u32_bytes(
        Endian::Big,
        h.nkit_crc,
    ) + u32_bytes(Endian::Big, h.source_image_length) + u32_bytes(Endian::Big, h.forced_junk_id)
        + u32_bytes(Endian::Big, h.update_partition_crc)
}

impl NKitHeader {
    /// Reads the header at `pos`. Where the four bytes there are not the
    /// letters NKIT the image carries no such header, and the result is
    /// `Ok(None)`; where the buffer ends before the letters, or before the
    /// end of a header that they announce, the result is an error.
    pub fn read(buffer: &[u8], pos: usize) -> (r: WiiResult<Option<NKitHeader>>)
        ensures
            r.is_err() == (pos + 4 > buffer@.len() || (buffer@.subrange(pos as int, pos + 4)
                == nkit_magic() && pos + 28 > buffer@.len())),
            r.is_err() ==> r == Err::<Option<NKitHeader>, WiiError>(WiiError::BadOffset),
            r.is_ok() ==> (r.unwrap().is_some() == (buffer@.subrange(pos as int, pos + 4)
                == nkit_magic())),
            r.is_ok() && r.unwrap().is_some() ==> nkit_fields(r.unwrap().unwrap()) == nkit_fields_at(
                buffer@,
                pos as int,
            ),
    {
        if pos > buffer.len() || buffer.len() - pos < 4 {
            return Err(WiiError::BadOffset);
        }
        if buffer[pos] != 0x4E || buffer[pos + 1] != 0x4B || buffer[pos + 2] != 0x49 || buffer[pos
            + 3] != 0x54 {
            proof {
                let m = buffer@.subrange(pos as int, pos + 4);
                assert(m[0] == buffer@[pos as int] && m[1] == buffer@[pos + 1] && m[2] == buffer@[pos
                    + 2] && m[3] == buffer@[pos + 3]);
            }
            return Ok(None);
        }
        assert(buffer@.subrange(pos as int, pos + 4) =~= nkit_magic());
        if buffer.len() - pos < 28 {
            return Err(WiiError::BadOffset);
        }
        let version: [u8; 4] = [buffer[pos + 4], buffer[pos + 5], buffer[pos + 6], buffer[pos + 7]];
        assert(version@ =~= buffer@.subrange(pos + 4, pos + 8));
        Ok(
            Some(
                NKitHeader {
                    version,
                    original_crc: get_u32(Endian::Big, buffer, pos + 8),
                    nkit_crc: get_u32(Endian::Big, buffer, pos + 12),
                    source_image_length: get_u32(Endian::Big, buffer, pos + 16),
                    forced_junk_id: get_u32(Endian::Big, buffer, pos + 20),
                    update_partition_crc: get_u32(Endian::Big, buffer, pos + 24),
                },
            ),
        )
    }

    /// Appends the header's 28 bytes.
    pub fn write(&self, out: &mut Vec<u8>)
        ensures
            final(out)@ == old(out)@ + nkit_bytes(*self),
    {
        let magic: [u8; 4] = [0x4E, 0x4B, 0x49, 0x54];
        assert(magic@ =~= nkit_magic());
        put_slice(out, magic.as_slice());
        put_slice(out, self.version.as_slice());
        put_u32(Endian::Big, out, self.original_crc);
        put_u32(Endian::Big, out, self.nkit_crc);
        put_u32(Endian::Big, out, self.source_image_length);
        put_u32(Endian::Big, out, self.forced_junk_id);
        put_u32(Endian::Big, out, self.update_partition_crc);
        assert(out@ =~= old(out)@ + nkit_bytes(*self));
    }
}

} // verus!
