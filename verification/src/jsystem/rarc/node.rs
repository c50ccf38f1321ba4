//! The 16-byte records of the directories.

use crate::endian::{get_u16, get_u32, put_u16, put_u32, put_u8, u16_bytes, u16_of, u32_bytes, u32_of, Endian};
use crate::jsystem::rarc::error::{RarcError, RarcResult};
use vstd::prelude::*;

verus! {

/// One directory: its entries are `entry_count` records of the entry table
/// from `entry_offset` on.
#[derive(Debug, Clone, Copy, PartialEq, Eq)]
pub struct RarcNode {
    pub tag: [u8; 4],
    pub name_offset: u32,
    pub name_hash: u16,
    pub entry_count: u16,
    pub entry_offset: u32,
}

/// The bytes of a directory record.
pub open spec fn node_bytes(order: Endian, n: RarcNode) -> Seq<u8> {
    n.tag@ + u32_bytes(order, n.name_offset) + u16_bytes(order, n.name_hash) + u16_bytes(
        order,
        n.entry_count,
    ) + u32_bytes(order, n.entry_offset)
}

/// The fields of the directory record at `pos`.
pub open spec fn node_fields_at(order: Endian, b: Seq<u8>, pos: int) -> (Seq<u8>, int, int, int, int) {
    (
        b.subrange(pos, pos + 4),
        u32_of(order, b.subrange(pos + 4, pos + 8)),
        u16_of(order, b.subrange(pos + 8, pos + 10)),
        u16_of(order, b.subrange(pos + 10, pos + 12)),
        u32_of(order, b.subrange(pos + 12, pos + 16)),
    )
}

/// What a directory record is to the contracts.
pub open spec fn node_fields(n: RarcNode) -> (Seq<u8>, int, int, int, int) {
    (n.tag@, n.name_offset as int, n.name_hash as int, n.entry_count as int, n.entry_offset as int)
}

/// `nodes` are the `count` directory records at the start of `b`.
pub open spec fn is_node_table(order: Endian, nodes: Seq<RarcNode>, count: int, b: Seq<u8>) -> bool {
    &&& nodes.len() == count
    &&& forall|i: int| 0 <= i < count ==> node_fields(#[trigger] nodes[i]) == node_fields_at(order, b, 16 * i)
}

impl RarcNode {
    /// Appends the record's 16 bytes.
    pub fn write(&self, order: Endian, out: &mut Vec<u8>)
        ensures
            final(out)@ == old(out)@ + node_bytes(order, *self),
    {
        put_u8(out, self.tag[0]);
        put_u8(out, self.tag[1]);
        put_u8(out, self.tag[2]);
        put_u8(out, self.tag[3]);
        put_u32(order, out, self.name_offset);
        put_u16(order, out, self.name_hash);
        put_u16(order, out, self.entry_count);
        put_u32(order, out, self.entry_offset);
        assert(out@ =~= old(out)@ + node_bytes(order, *self));
    }

    /// Reads the record at `pos`.
    pub fn read(order: Endian, buffer: &[u8], pos: usize) -> (r: RarcNode)
        requires
            pos + 16 <= buffer@.len(),
        ensures
            node_fields(r) == node_fields_at(order, buffer@, pos as int),
    {
        let _len: usize = buffer.len();
        let tag: [u8; 4] = [buffer[pos], buffer[pos + 1], buffer[pos + 2], buffer[pos + 3]];
        assert(tag@ =~= buffer@.subrange(pos as int, pos + 4));
        RarcNode {
            tag,
            name_offset: get_u32(order, buffer, pos + 4),
            name_hash: get_u16(order, buffer, pos + 8),
            entry_count: get_u16(order, buffer, pos + 10),
            entry_offset: get_u32(order, buffer, pos + 12),
        }
    }
}

/// Reads the `count` directory records at the start of `buffer`; a buffer
/// too short for them is refused.
pub fn read_node_table(order: Endian, count: u32, buffer: &[u8]) -> (r: RarcResult<Vec<RarcNode>>)
    ensures
        r.is_ok() == (16 * count <= buffer@.len()),
        r.is_ok() ==> is_node_table(order, r.unwrap()@, count as int, buffer@),
        r.is_err() ==> r == Err::<Vec<RarcNode>, RarcError>(RarcError::BadOffset),
{
    if (buffer.len() as u64) < 16 * (count as u64) {
        return Err(RarcError::BadOffset);
    }
    let len: usize = buffer.len();
    let mut result: Vec<RarcNode> = Vec::new();
    let mut i: u32 = 0;
    while i < count
        invariant
            i <= count,
            len == buffer@.len(),
            16 * count <= buffer@.len(),
            is_node_table(order, result@, i as int, buffer@),
        decreases count - i,
    {
        let node = RarcNode::read(order, buffer, 16 * (i as usize));
        result.push(node);
        i += 1;
    }
    Ok(result)
}

} // verus!
