//! The 12 bytes that describe a column.

use crate::endian::{get_u16, get_u32, put_u16, put_u32, put_u8, u16_bytes, u16_of, u32_bytes, u32_of, Endian};
use crate::jsystem::bcsv::data::{tag_of, type_of, DataType};
use crate::jsystem::bcsv::error::{BcsvError, BcsvResult};
use vstd::prelude::*;

verus! {

/// A column as the table describes it.
#[derive(Debug, Clone, Copy, PartialEq, Eq, Structural)]
pub struct BcsvFieldDefinition {
    pub name_hash: u32,
    pub bitmask: u32,
    pub entry_offset: u16,
    pub shift_amount: u8,
    pub data_type: DataType,
}

/// The 12 bytes of a definition.
pub open spec fn field_bytes(d: BcsvFieldDefinition) -> Seq<u8> {
    u32_bytes(Endian::Big, d.name_hash) + u32_bytes(Endian::Big, d.bitmask) + u16_bytes(
        Endian::Big,
        d.entry_offset,
    ) + seq![d.shift_amount, tag_of(d.data_type)]
}

/// The definition that the 12 bytes at `pos` hold.
pub open spec fn field_at(b: Seq<u8>, pos: int) -> BcsvResult<BcsvFieldDefinition> {
    if pos < 0 || pos + 12 > b.len() {
        Err(BcsvError::UnexpectedEnd)
    } else {
        match type_of(b[pos + 11]) {
            Err(x) => Err(x),
            Ok(ty) => Ok(
                BcsvFieldDefinition {
                    name_hash: u32_of(Endian::Big, b.subrange(pos, pos + 4)) as u32,
                    bitmask: u32_of(Endian::Big, b.subrange(pos + 4, pos + 8)) as u32,
                    entry_offset: u16_of(Endian::Big, b.subrange(pos + 8, pos + 10)) as u16,
                    shift_amount: b[pos + 10],
                    data_type: ty,
                },
            ),
        }
    }
}

impl BcsvFieldDefinition {
    /// Reads the definition at `pos`.
    pub fn read(buffer: &[u8], pos: usize) -> (r: BcsvResult<BcsvFieldDefinition>)
        ensures
            r == field_at(buffer@, pos as int),
    {
        if pos > buffer.len() || buffer.len() - pos < 12 {
            return Err(BcsvError::UnexpectedEnd);
        }
        let data_type: DataType = DataType::from_tag(buffer[pos + 11])?;
        Ok(
            BcsvFieldDefinition {
                name_hash: get_u32(Endian::Big, buffer, pos),
                bitmask: get_u32(Endian::Big, buffer, pos + 4),
                entry_offset: get_u16(Endian::Big, buffer, pos + 8),
                shift_amount: buffer[pos + 10],
                data_type,
            },
        )
    }

    /// Appends the definition's 12 bytes.
    pub fn write(&self, out: &mut Vec<u8>)
        ensures
            final(out)@ == old(out)@ + field_bytes(*self),
    {
        put_u32(Endian::Big, out, self.name_hash);
        put_u32(Endian::Big, out, self.bitmask);
        put_u16(Endian::Big, out, self.entry_offset);
        put_u8(out, self.shift_amount);
        put_u8(out, self.data_type.tag());
        assert(out@ =~= old(out)@ + field_bytes(*self));
    }
}

} // verus!
