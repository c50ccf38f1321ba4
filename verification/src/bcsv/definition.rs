//! The 12 bytes that describe a column.

use crate::bcsv::data::{tag_of, type_of, DataType};
use crate::bcsv::error::{BcsvError, BcsvResult};
use crate::endian::{get_u16, get_u32, put_u16, put_u32, put_u8, u16_bytes, u16_of, u32_bytes, u32_of, Endian};
use vstd::prelude::*;

verus! {

/// A column as the table describes it.
#[derive(Debug, Clone, Copy, PartialEq, Eq, Structural)]
pub struct ColumnDefinition {
    /// The hash of the column's name.
    pub name: u32,
    /// The mask that is laid over every integer of the column.
    pub bitmask: u32,
    /// Where the column starts in a row.
    pub offset: u16,
    /// By how many bits every integer of the column is shifted.
    pub shift: u8,
    /// The type of the column.
    pub ty: DataType,
}

/// The 12 bytes of a definition.
pub open spec fn definition_bytes(e: Endian, d: ColumnDefinition) -> Seq<u8> {
    u32_bytes(e, d.name) + u32_bytes(e, d.bitmask) + u16_bytes(e, d.offset) + seq![
        d.shift,
        tag_of(d.ty),
    ]
}

/// The definition that the 12 bytes at `pos` hold.
pub open spec fn definition_at(e: Endian, b: Seq<u8>, pos: int) -> BcsvResult<ColumnDefinition> {
    if pos < 0 || pos + 12 > b.len() {
        Err(BcsvError::UnexpectedEnd)
    } else {
        match type_of(b[pos + 11]) {
            Err(x) => Err(x),
            Ok(ty) => Ok(
                ColumnDefinition {
                    name: u32_of(e, b.subrange(pos, pos + 4)) as u32,
                    bitmask: u32_of(e, b.subrange(pos + 4, pos + 8)) as u32,
                    offset: u16_of(e, b.subrange(pos + 8, pos + 10)) as u16,
                    shift: b[pos + 10],
                    ty,
                },
            ),
        }
    }
}

impl ColumnDefinition {
    /// Reads the definition at `pos`.
    pub fn read(endian: Endian, buffer: &[u8], pos: usize) -> (r: BcsvResult<ColumnDefinition>)
        ensures
            r == definition_at(endian, buffer@, pos as int),
    {
        if pos > buffer.len() || buffer.len() - pos < 12 {
            return Err(BcsvError::UnexpectedEnd);
        }
        let ty: DataType = DataType::from_tag(buffer[pos + 11])?;
        Ok(
            ColumnDefinition {
                name: get_u32(endian, buffer, pos),
                bitmask: get_u32(endian, buffer, pos + 4),
                offset: get_u16(endian, buffer, pos + 8),
                shift: buffer[pos + 10],
                ty,
            },
        )
    }

    /// Appends the definition's 12 bytes.
    pub fn write(&self, endian: Endian, out: &mut Vec<u8>)
        ensures
            final(out)@ == old(out)@ + definition_bytes(endian, *self),
    {
        put_u32(endian, out, self.name);
        put_u32(endian, out, self.bitmask);
        put_u16(endian, out, self.offset);
        put_u8(out, self.shift);
        put_u8(out, self.ty.tag());
        assert(out@ =~= old(out)@ + definition_bytes(endian, *self));
    }
}

} // verus!
