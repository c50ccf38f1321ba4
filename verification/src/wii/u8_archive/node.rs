//! The 12-byte records of a flat archive.

use crate::endian::{get_u24, get_u32, put_u24, put_u32, put_u8, u24_bytes, u24_of, u32_bytes, u32_of, Endian};
use crate::wii::error::{WiiError, WiiResult};
use vstd::prelude::*;

verus! {

/// The length of a record in bytes.
pub const U8_NODE_LEN: usize = 12;

/// One record: a file or a directory.
#[derive(Debug, Clone, Copy, PartialEq, Eq, Structural)]
pub struct U8Node {
    /// 0 for a file, 1 for a directory.
    pub ty: u8,
    /// Where the name starts in the string pool; below 2^24.
    pub name_offset: u32,
    /// For a file, where its contents start in the buffer.
    pub data_offset: u32,
    /// For a file, the length of its contents; for a directory, the index
    /// of the record after the last one of its subtree.
    pub size: u32,
}

/// The bytes of a record.
pub open spec fn node_bytes(order: Endian, n: U8Node) -> Seq<u8> {
    seq![n.ty] + u24_bytes(order, n.name_offset) + u32_bytes(order, n.data_offset) + u32_bytes(
        order,
        n.size,
    )
}

/// The record that the 12 bytes at `pos` hold.
pub open spec fn node_at(order: Endian, b: Seq<u8>, pos: int) -> WiiResult<U8Node> {
    if pos < 0 || pos + 12 > b.len() {
        Err(WiiError::BadOffset)
    } else {
        Ok(
            U8Node {
                ty: b[pos],
                name_offset: u24_of(order, b.subrange(pos + 1, pos + 4)) as u32,
                data_offset: u32_of(order, b.subrange(pos + 4, pos + 8)) as u32,
                size: u32_of(order, b.subrange(pos + 8, pos + 12)) as u32,
            },
        )
    }
}

impl U8Node {
    /// Reads the record at `pos`.
    pub fn read(order: Endian, buffer: &[u8], pos: usize) -> (r: WiiResult<U8Node>)
        ensures
            r == node_at(order, buffer@, pos as int),
            r.is_ok() ==> r.unwrap().name_offset < 0x1000000,
    {
        if pos > buffer.len() || buffer.len() - pos < 12 {
            return Err(WiiError::BadOffset);
        }
        let ty: u8 = buffer[pos];
        let name_offset: u32 = get_u24(order, buffer, pos + 1);
        let data_offset: u32 = get_u32(order, buffer, pos + 4);
        let size: u32 = get_u32(order, buffer, pos + 8);
        Ok(U8Node { ty, name_offset, data_offset, size })
    }

    /// Appends the record's 12 bytes.
    pub fn write(&self, order: Endian, out: &mut Vec<u8>)
        requires
            self.name_offset < 0x1000000,
        ensures
            final(out)@ == old(out)@ + node_bytes(order, *self),
    {
        put_u8(out, self.ty);
        put_u24(order, out, self.name_offset);
        put_u32(order, out, self.data_offset);
        put_u32(order, out, self.size);
        assert(out@ =~= old(out)@ + node_bytes(order, *self));
    }
}

/// A record that was written is read back as it was.
pub proof fn lemma_node_round_trip(order: Endian, n: U8Node, before: Seq<u8>, after: Seq<u8>)
    requires
        n.name_offset < 0x1000000,
    ensures
        node_bytes(order, n).len() == 12,
        node_at(order, before + node_bytes(order, n) + after, before.len() as int) == Ok::<U8Node, WiiError>(n),
{
    let b = before + node_bytes(order, n) + after;
    let pos = before.len() as int;
    crate::endian::lemma_u24_round_trip(order, n.name_offset);
    crate::endian::lemma_u32_round_trip(order, n.data_offset);
    crate::endian::lemma_u32_round_trip(order, n.size);
    assert(b[pos] == n.ty);
    assert(b.subrange(pos + 1, pos + 4) =~= u24_bytes(order, n.name_offset));
    assert(b.subrange(pos + 4, pos + 8) =~= u32_bytes(order, n.data_offset));
    assert(b.subrange(pos + 8, pos + 12) =~= u32_bytes(order, n.size));
}

} // verus!
