//! The 64 bytes at the start of an archive.

use crate::endian::{get_u16, get_u32, put_u16, put_u8, put_words, put_zeros, u16_bytes, u16_of, u32_of, words_bytes, zeros, Endian};
use crate::jsystem::rarc::error::{RarcError, RarcResult};
use vstd::prelude::*;

verus! {

/// The signature of an archive: the letters RARC.
pub const RARC_MAGIC: u32 = 0x52415243;

/// The fields of the header. Offsets count from the start of the archive;
/// in the file they are stored less 32.
#[derive(Debug, Clone, Copy, PartialEq, Eq, Structural)]
pub struct RarcHeader {
    pub file_size: u32,
    pub data_header_offset: u32,
    pub data_offset: u32,
    pub data_length: u32,
    pub mram_size: u32,
    pub aram_size: u32,
    pub dvd_size: u32,
    pub node_count: u32,
    pub node_table_offset: u32,
    pub entry_count: u32,
    pub entry_table_offset: u32,
    pub string_table_size: u32,
    pub string_table_offset: u32,
    pub next_free_file_id: u16,
    pub keep_file_ids_sync: bool,
}

/// The four-byte field at `pos`.
pub open spec fn field(order: Endian, b: Seq<u8>, pos: int) -> int {
    u32_of(order, b.subrange(pos, pos + 4))
}

/// What the start of a buffer holds as a header. A buffer too short for the
/// signature, or for the rest, is refused as out of bounds, and so is a
/// stored offset that is more than 32 bits can hold once 32 is added.
pub open spec fn header_of(order: Endian, b: Seq<u8>) -> RarcResult<RarcHeader> {
    if b.len() < 4 {
        Err(RarcError::BadOffset)
    } else if field(order, b, 0) != RARC_MAGIC {
        Err(RarcError::InvalidMagic(field(order, b, 0) as u32))
    } else if b.len() < 0x40 {
        Err(RarcError::BadOffset)
    } else if field(order, b, 12) + 0x20 > u32::MAX || field(order, b, 36) + 0x20 > u32::MAX || field(order, b, 44)
        + 0x20 > u32::MAX || field(order, b, 52) + 0x20 > u32::MAX {
        Err(RarcError::BadOffset)
    } else {
        Ok(
            RarcHeader {
                file_size: field(order, b, 4) as u32,
                data_header_offset: field(order, b, 8) as u32,
                data_offset: (field(order, b, 12) + 0x20) as u32,
                data_length: field(order, b, 16) as u32,
                mram_size: field(order, b, 20) as u32,
                aram_size: field(order, b, 24) as u32,
                dvd_size: field(order, b, 28) as u32,
                node_count: field(order, b, 32) as u32,
                node_table_offset: (field(order, b, 36) + 0x20) as u32,
                entry_count: field(order, b, 40) as u32,
                entry_table_offset: (field(order, b, 44) + 0x20) as u32,
                string_table_size: field(order, b, 48) as u32,
                string_table_offset: (field(order, b, 52) + 0x20) as u32,
                next_free_file_id: u16_of(order, b.subrange(56, 58)) as u16,
                keep_file_ids_sync: b[58] != 0,
            },
        )
    }
}

/// The fourteen words that a header starts with: the signature and the
/// fields of 32 bits, the offsets less 32.
pub open spec fn header_words(h: RarcHeader) -> Seq<u32> {
    seq![
        RARC_MAGIC,
        h.file_size,
        h.data_header_offset,
        (h.data_offset - 0x20) as u32,
        h.data_length,
        h.mram_size,
        h.aram_size,
        h.dvd_size,
        h.node_count,
        (h.node_table_offset - 0x20) as u32,
        h.entry_count,
        (h.entry_table_offset - 0x20) as u32,
        h.string_table_size,
        (h.string_table_offset - 0x20) as u32,
    ]
}

/// The eight bytes that a header ends with: the next free id, the switch
/// that keeps ids in step, and five zero bytes.
pub open spec fn header_tail(order: Endian, h: RarcHeader) -> Seq<u8> {
    u16_bytes(order, h.next_free_file_id) + seq![
        if h.keep_file_ids_sync {
            1u8
        } else {
            0u8
        },
    ] + zeros(5)
}

/// The 64 bytes of a header.
pub open spec fn header_bytes(order: Endian, h: RarcHeader) -> Seq<u8> {
    words_bytes(order, header_words(h)) + header_tail(order, h)
}

/// The offsets of a header can be stored: none is below 32.
pub open spec fn storable(h: RarcHeader) -> bool {
    h.data_offset >= 0x20 && h.node_table_offset >= 0x20 && h.entry_table_offset >= 0x20
        && h.string_table_offset >= 0x20
}

impl RarcHeader {
    /// Reads the header at the start of `buffer`.
    pub fn read(order: Endian, buffer: &[u8]) -> (r: RarcResult<RarcHeader>)
        ensures
            r == header_of(order, buffer@),
    {
        if buffer.len() < 4 {
            return Err(RarcError::BadOffset);
        }
        let magic: u32 = get_u32(order, buffer, 0);
        if magic != RARC_MAGIC {
            return Err(RarcError::InvalidMagic(magic));
        }
        if buffer.len() < 0x40 {
            return Err(RarcError::BadOffset);
        }
        let file_size: u32 = get_u32(order, buffer, 4);
        let data_header_offset: u32 = get_u32(order, buffer, 8);
        let data_offset: u32 = get_u32(order, buffer, 12);
        let data_length: u32 = get_u32(order, buffer, 16);
        let mram_size: u32 = get_u32(order, buffer, 20);
        let aram_size: u32 = get_u32(order, buffer, 24);
        let dvd_size: u32 = get_u32(order, buffer, 28);
        let node_count: u32 = get_u32(order, buffer, 32);
        let node_table_offset: u32 = get_u32(order, buffer, 36);
        let entry_count: u32 = get_u32(order, buffer, 40);
        let entry_table_offset: u32 = get_u32(order, buffer, 44);
        let string_table_size: u32 = get_u32(order, buffer, 48);
        let string_table_offset: u32 = get_u32(order, buffer, 52);
        let next_free_file_id: u16 = get_u16(order, buffer, 56);
        let keep_file_ids_sync: bool = buffer[58] != 0;
        let limit: u32 = 0xFFFF_FFFF - 0x20;
        if data_offset > limit || node_table_offset > limit || entry_table_offset > limit
            || string_table_offset > limit {
            return Err(RarcError::BadOffset);
        }
        Ok(
            RarcHeader {
                file_size,
                data_header_offset,
                data_offset: data_offset + 0x20,
                data_length,
                mram_size,
                aram_size,
                dvd_size,
                node_count,
                node_table_offset: node_table_offset + 0x20,
                entry_count,
                entry_table_offset: entry_table_offset + 0x20,
                string_table_size,
                string_table_offset: string_table_offset + 0x20,
                next_free_file_id,
                keep_file_ids_sync,
            },
        )
    }

    /// Appends the header's 64 bytes.
    pub fn write(&self, order: Endian, out: &mut Vec<u8>)
        requires
            storable(*self),
        ensures
            final(out)@ == old(out)@ + header_bytes(order, *self),
    {
        let words: [u32; 14] = [
            RARC_MAGIC,
            self.file_size,
            self.data_header_offset,
            self.data_offset - 0x20,
            self.data_length,
            self.mram_size,
            self.aram_size,
            self.dvd_size,
            self.node_count,
            self.node_table_offset - 0x20,
            self.entry_count,
            self.entry_table_offset - 0x20,
            self.string_table_size,
            self.string_table_offset - 0x20,
        ];
        assert(words@ =~= header_words(*self));
        put_words(order, out, words.as_slice());
        let ghost mid = out@;
        put_u16(order, out, self.next_free_file_id);
        let flag: u8 = if self.keep_file_ids_sync {
            1
        } else {
            0
        };
        put_u8(out, flag);
        put_zeros(out, 5);
        assert(out@ =~= mid + header_tail(order, *self));
        assert(out@ =~= old(out)@ + header_bytes(order, *self));
    }
}

impl Default for RarcHeader {
    /// The header of an archive that holds nothing yet.
    fn default() -> (r: Self)
        ensures
            r == (RarcHeader {
                file_size: 0,
                data_header_offset: 0x20,
                data_offset: 0,
                data_length: 0,
                mram_size: 0,
                aram_size: 0,
                dvd_size: 0,
                node_count: 0,
                node_table_offset: 0,
                entry_count: 0,
                entry_table_offset: 0,
                string_table_size: 0,
                string_table_offset: 0x40,
                next_free_file_id: 0,
                keep_file_ids_sync: false,
            }),
    {
        RarcHeader {
            file_size: 0,
            data_header_offset: 0x20,
            data_offset: 0,
            data_length: 0,
            mram_size: 0,
            aram_size: 0,
            dvd_size: 0,
            node_count: 0,
            node_table_offset: 0,
            entry_count: 0,
            entry_table_offset: 0,
            string_table_size: 0,
            string_table_offset: 0x40,
            next_free_file_id: 0,
            keep_file_ids_sync: false,
        }
    }
}

/// A header that was written is read back as it was.
pub proof fn lemma_header_round_trip(order: Endian, h: RarcHeader, rest: Seq<u8>)
    requires
        storable(h),
    ensures
        header_bytes(order, h).len() == 0x40,
        header_of(order, header_bytes(order, h) + rest) == Ok::<RarcHeader, RarcError>(h),
{
    let ws = header_words(h);
    let tail = header_tail(order, h) + rest;
    let b = header_bytes(order, h) + rest;
    crate::endian::lemma_words_len(order, ws);
    assert(b =~= words_bytes(order, ws) + tail);
    crate::endian::lemma_word_at(order, ws, tail, 0);
    crate::endian::lemma_word_at(order, ws, tail, 1);
    crate::endian::lemma_word_at(order, ws, tail, 2);
    crate::endian::lemma_word_at(order, ws, tail, 3);
    crate::endian::lemma_word_at(order, ws, tail, 4);
    crate::endian::lemma_word_at(order, ws, tail, 5);
    crate::endian::lemma_word_at(order, ws, tail, 6);
    crate::endian::lemma_word_at(order, ws, tail, 7);
    crate::endian::lemma_word_at(order, ws, tail, 8);
    crate::endian::lemma_word_at(order, ws, tail, 9);
    crate::endian::lemma_word_at(order, ws, tail, 10);
    crate::endian::lemma_word_at(order, ws, tail, 11);
    crate::endian::lemma_word_at(order, ws, tail, 12);
    crate::endian::lemma_word_at(order, ws, tail, 13);

    assert(b.subrange(56, 58) =~= u16_bytes(order, h.next_free_file_id));
    crate::endian::lemma_u16_round_trip(order, h.next_free_file_id);
    assert(b[58] == header_tail(order, h)[2]);
}

} // verus!
