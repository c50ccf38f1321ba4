//! The 64 bytes at the start of an archive, in either byte order.

use crate::endian::{get_u16, get_u32, put_slice, put_u16, put_u32, put_u8, put_zeros, u16_bytes, u16_of, u32_bytes, u32_of, zeros, Endian};
use crate::rarc::error::{RarcError, RarcResult};
use vstd::prelude::*;

verus! {

/// The fields of the header. Offsets count from byte 32 of the archive.
#[derive(Debug, Clone, Copy, PartialEq, Eq, Structural)]
pub struct RarcHeader {
    pub size: u32,
    pub data_offset: u32,
    pub data_length: u32,
    pub mram: u32,
    pub aram: u32,
    pub dvd: u32,
    pub directory_nodes: u32,
    pub directory_offset: u32,
    pub file_nodes: u32,
    pub file_offset: u32,
    pub string_size: u32,
    pub string_offset: u32,
    pub next_file: u16,
    pub keep_synced: bool,
}

/// The letters RARC.
pub open spec fn rarc_magic() -> Seq<u8> {
    seq![0x52u8, 0x41u8, 0x52u8, 0x43u8]
}

/// The four-byte field at `pos`.
pub open spec fn field(e: Endian, b: Seq<u8>, pos: int) -> u32 {
    u32_of(e, b.subrange(pos, pos + 4)) as u32
}

/// The header that the start of a buffer holds: its first part in the
/// first 32 bytes, its second part in the 32 bytes at the offset that the
/// first part names.
pub open spec fn header_of(e: Endian, b: Seq<u8>) -> RarcResult<RarcHeader> {
    if b.len() < 4 {
        Err(RarcError::BadOffset)
    } else if b.subrange(0, 4) != rarc_magic() {
        Err(RarcError::InvaildMagic)
    } else if b.len() < 32 {
        Err(RarcError::BadOffset)
    } else {
        let at = field(e, b, 8) as int;
        if at + 27 > b.len() {
            Err(RarcError::BadOffset)
        } else {
            Ok(
                RarcHeader {
                    size: field(e, b, 4),
                    data_offset: field(e, b, 12),
                    data_length: field(e, b, 16),
                    mram: field(e, b, 20),
                    aram: field(e, b, 24),
                    dvd: field(e, b, 28),
                    directory_nodes: field(e, b, at),
                    directory_offset: field(e, b, at + 4),
                    file_nodes: field(e, b, at + 8),
                    file_offset: field(e, b, at + 12),
                    string_size: field(e, b, at + 16),
                    string_offset: field(e, b, at + 20),
                    next_file: u16_of(e, b.subrange(at + 24, at + 26)) as u16,
                    keep_synced: b[at + 26] == 1,
                },
            )
        }
    }
}

/// The first part of a header: the signature, the sizes, and the offset
/// of the second part.
pub open spec fn first_part(e: Endian, h: RarcHeader) -> Seq<u8> {
    rarc_magic() + u32_bytes(e, h.size) + u32_bytes(e, 0x20) + u32_bytes(e, h.data_offset)
        + u32_bytes(e, h.data_length) + u32_bytes(e, h.mram) + u32_bytes(e, h.aram) + u32_bytes(
        e,
        h.dvd,
    )
}

/// The second part of a header: where the tables stand.
pub open spec fn second_part(e: Endian, h: RarcHeader) -> Seq<u8> {
    u32_bytes(e, h.directory_nodes) + u32_bytes(e, h.directory_offset) + u32_bytes(
        e,
        h.file_nodes,
    ) + u32_bytes(e, h.file_offset) + u32_bytes(e, h.string_size) + u32_bytes(e, h.string_offset)
        + u16_bytes(e, h.next_file) + seq![
        if h.keep_synced {
            1u8
        } else {
            0u8
        },
    ] + zeros(5)
}

/// The 64 bytes of a header, whose second part follows the first.
pub open spec fn header_bytes(e: Endian, h: RarcHeader) -> Seq<u8> {
    first_part(e, h) + second_part(e, h)
}

impl RarcHeader {
    /// Reads the header at the start of `buffer`.
    pub fn read(endian: Endian, buffer: &[u8]) -> (r: RarcResult<RarcHeader>)
        ensures
            r == header_of(endian, buffer@),
    {
        let len: usize = buffer.len();
        if len < 4 {
            return Err(RarcError::BadOffset);
        }
        let is_magic: bool = buffer[0] == 0x52 && buffer[1] == 0x41 && buffer[2] == 0x52 && buffer[3]
            == 0x43;
        proof {
            let m = buffer@.subrange(0, 4);
            if is_magic {
                assert(m =~= rarc_magic());
            } else {
                assert(m[0] == buffer@[0] && m[1] == buffer@[1] && m[2] == buffer@[2] && m[3]
                    == buffer@[3]);
            }
        }
        if !is_magic {
            return Err(RarcError::InvaildMagic);
        }
        if len < 32 {
            return Err(RarcError::BadOffset);
        }
        let size: u32 = get_u32(endian, buffer, 4);
        let data_header: u32 = get_u32(endian, buffer, 8);
        let data_offset: u32 = get_u32(endian, buffer, 12);
        let data_length: u32 = get_u32(endian, buffer, 16);
        let mram: u32 = get_u32(endian, buffer, 20);
        let aram: u32 = get_u32(endian, buffer, 24);
        let dvd: u32 = get_u32(endian, buffer, 28);
        if data_header as u64 + 27 > len as u64 {
            return Err(RarcError::BadOffset);
        }
        let at: usize = data_header as usize;
        Ok(
            RarcHeader {
                size,
                data_offset,
                data_length,
                mram,
                aram,
                dvd,
                directory_nodes: get_u32(endian, buffer, at),
                directory_offset: get_u32(endian, buffer, at + 4),
                file_nodes: get_u32(endian, buffer, at + 8),
                file_offset: get_u32(endian, buffer, at + 12),
                string_size: get_u32(endian, buffer, at + 16),
                string_offset: get_u32(endian, buffer, at + 20),
                next_file: get_u16(endian, buffer, at + 24),
                keep_synced: buffer[at + 26] == 1,
            },
        )
    }

    /// Appends the first part of the header.
    fn write_first(&self, endian: Endian, out: &mut Vec<u8>)
        ensures
            final(out)@ == old(out)@ + first_part(endian, *self),
    {
        let magic: [u8; 4] = [0x52, 0x41, 0x52, 0x43];
        assert(magic@ =~= rarc_magic());
        put_slice(out, magic.as_slice());
        put_u32(endian, out, self.size);
        put_u32(endian, out, 0x20);
        put_u32(endian, out, self.data_offset);
        let ghost a = out@;
        assert(a =~= old(out)@ + (rarc_magic() + u32_bytes(endian, self.size) + u32_bytes(endian, 0x20)
            + u32_bytes(endian, self.data_offset)));
        put_u32(endian, out, self.data_length);
        put_u32(endian, out, self.mram);
        put_u32(endian, out, self.aram);
        put_u32(endian, out, self.dvd);
        assert(out@ =~= a + (u32_bytes(endian, self.data_length) + u32_bytes(endian, self.mram)
            + u32_bytes(endian, self.aram) + u32_bytes(endian, self.dvd)));
        assert(out@ =~= old(out)@ + first_part(endian, *self));
    }

    /// Appends the second part of the header.
    fn write_second(&self, endian: Endian, out: &mut Vec<u8>)
        ensures
            final(out)@ == old(out)@ + second_part(endian, *self),
    {
        put_u32(endian, out, self.directory_nodes);
        put_u32(endian, out, self.directory_offset);
        put_u32(endian, out, self.file_nodes);
        put_u32(endian, out, self.file_offset);
        let ghost a = out@;
        assert(a =~= old(out)@ + (u32_bytes(endian, self.directory_nodes) + u32_bytes(
            endian,
            self.directory_offset,
        ) + u32_bytes(endian, self.file_nodes) + u32_bytes(endian, self.file_offset)));
        put_u32(endian, out, self.string_size);
        put_u32(endian, out, self.string_offset);
        put_u16(endian, out, self.next_file);
        let flag: u8 = if self.keep_synced {
            1
        } else {
            0
        };
        put_u8(out, flag);
        put_zeros(out, 5);
        assert(out@ =~= a + (u32_bytes(endian, self.string_size) + u32_bytes(endian, self.string_offset)
            + u16_bytes(endian, self.next_file) + seq![flag] + zeros(5)));
        assert(out@ =~= old(out)@ + second_part(endian, *self));
    }

    /// Appends the header's 64 bytes.
    pub fn write(&self, endian: Endian, out: &mut Vec<u8>)
        ensures
            final(out)@ == old(out)@ + header_bytes(endian, *self),
    {
        self.write_first(endian, out);
        self.write_second(endian, out);
        assert(out@ =~= old(out)@ + header_bytes(endian, *self));
    }
}

} // verus!
