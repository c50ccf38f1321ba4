//! The 20-byte records of the entries.

use crate::endian::{get_u16, get_u32, put_u16, put_u32, put_zeros, u16_bytes, u16_of, u32_bytes, u32_of, zeros, Endian};
use crate::jsystem::rarc::error::{RarcError, RarcResult};
use vstd::prelude::*;

verus! {

/// The kind of an entry that is a file.
pub const ENTRY_FILE: u16 = 0x1100;

/// The kind of an entry that is a directory.
pub const ENTRY_DIRECTORY: u16 = 0x0200;

/// One entry of a directory: a file, whose contents are `length` bytes of
/// the data region from `data_offset` on, or a directory, whose record is
/// number `data_offset` of the directory table.
#[derive(Debug, Clone, Copy, PartialEq, Eq, Structural)]
pub struct RarcEntry {
    pub id: u16,
    pub name_hash: u16,
    pub ty: u16,
    pub name_offset: u16,
    pub data_offset: u32,
    pub length: u32,
}

/// The bytes of an entry record: the fields and four zero bytes.
pub open spec fn entry_bytes(order: Endian, e: RarcEntry) -> Seq<u8> {
    u16_bytes(order, e.id) + u16_bytes(order, e.name_hash) + u16_bytes(order, e.ty)
        + u16_bytes(order, e.name_offset) + u32_bytes(order, e.data_offset) + u32_bytes(
        order,
        e.length,
    ) + zeros(4)
}

/// The entry record at `pos`.
pub open spec fn entry_at(order: Endian, b: Seq<u8>, pos: int) -> RarcEntry {
    RarcEntry {
        id: u16_of(order, b.subrange(pos, pos + 2)) as u16,
        name_hash: u16_of(order, b.subrange(pos + 2, pos + 4)) as u16,
        ty: u16_of(order, b.subrange(pos + 4, pos + 6)) as u16,
        name_offset: u16_of(order, b.subrange(pos + 6, pos + 8)) as u16,
        data_offset: u32_of(order, b.subrange(pos + 8, pos + 12)) as u32,
        length: u32_of(order, b.subrange(pos + 12, pos + 16)) as u32,
    }
}

/// `entries` are the `count` entry records at the start of `b`.
pub open spec fn is_entry_table(order: Endian, entries: Seq<RarcEntry>, count: int, b: Seq<u8>) -> bool {
    &&& entries.len() == count
    &&& forall|i: int| 0 <= i < count ==> #[trigger] entries[i] == entry_at(order, b, 20 * i)
}

impl RarcEntry {
    /// Appends the record's 20 bytes.
    pub fn write(&self, order: Endian, out: &mut Vec<u8>)
        ensures
            final(out)@ == old(out)@ + entry_bytes(order, *self),
    {
        put_u16(order, out, self.id);
        put_u16(order, out, self.name_hash);
        put_u16(order, out, self.ty);
        put_u16(order, out, self.name_offset);
        put_u32(order, out, self.data_offset);
        put_u32(order, out, self.length);
        put_zeros(out, 4);
        assert(out@ =~= old(out)@ + entry_bytes(order, *self));
    }

    /// Reads the record at `pos`.
    pub fn read(order: Endian, buffer: &[u8], pos: usize) -> (r: RarcEntry)
        requires
            pos + 20 <= buffer@.len(),
        ensures
            r == entry_at(order, buffer@, pos as int),
    {
        let _len: usize = buffer.len();
        RarcEntry {
            id: get_u16(order, buffer, pos),
            name_hash: get_u16(order, buffer, pos + 2),
            ty: get_u16(order, buffer, pos + 4),
            name_offset: get_u16(order, buffer, pos + 6),
            data_offset: get_u32(order, buffer, pos + 8),
            length: get_u32(order, buffer, pos + 12),
        }
    }
}

/// Reads the `count` entry records at the start of `buffer`; a buffer too
/// short for them is refused.
pub fn read_entry_table(order: Endian, count: u32, buffer: &[u8]) -> (r: RarcResult<Vec<RarcEntry>>)
    ensures
        r.is_ok() == (20 * count <= buffer@.len()),
        r.is_ok() ==> is_entry_table(order, r.unwrap()@, count as int, buffer@),
        r.is_err() ==> r == Err::<Vec<RarcEntry>, RarcError>(RarcError::BadOffset),
{
    if (buffer.len() as u64) < 20 * (count as u64) {
        return Err(RarcError::BadOffset);
    }
    let len: usize = buffer.len();
    let mut result: Vec<RarcEntry> = Vec::new();
    let mut i: u32 = 0;
    while i < count
        invariant
            i <= count,
            len == buffer@.len(),
            20 * count <= buffer@.len(),
            is_entry_table(order, result@, i as int, buffer@),
        decreases count - i,
    {
        let entry = RarcEntry::read(order, buffer, 20 * (i as usize));
        result.push(entry);
        i += 1;
    }
    Ok(result)
}

} // verus!
