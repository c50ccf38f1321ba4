//! The cells of a table as bytes: integers under a mask and a shift, and
//! texts in the pool of strings.

use crate::bcsv::data::DataType;
use crate::bcsv::definition::ColumnDefinition;
use crate::bcsv::error::{BcsvError, BcsvResult};
use crate::bcsv::value::ValueView;
use crate::endian::{u16_of, u32_of, Endian};
use crate::jsystem::rarc::utils::shift_jis_decoded;
use vstd::prelude::*;

verus! {

/// The signed value with the same 32 bits.
pub open spec fn signed32(u: u32) -> i32 {
    if u < 0x8000_0000 {
        u as i32
    } else {
        (u - 0x1_0000_0000) as i32
    }
}

/// The signed value with the same 16 bits.
pub open spec fn signed16(u: u16) -> i16 {
    if u < 0x8000 {
        u as i16
    } else {
        (u - 0x1_0000) as i16
    }
}

/// The signed value with the same 8 bits.
pub open spec fn signed8(u: u8) -> i8 {
    if u < 0x80 {
        u as i8
    } else {
        (u - 0x100) as i8
    }
}

/// The unsigned value with the same 32 bits.
pub open spec fn unsigned32(x: i32) -> u32 {
    if x >= 0 {
        x as u32
    } else {
        (x + 0x1_0000_0000) as u32
    }
}

/// The unsigned value with the same 16 bits.
pub open spec fn unsigned16(x: i16) -> u16 {
    if x >= 0 {
        x as u16
    } else {
        (x + 0x1_0000) as u16
    }
}

/// The unsigned value with the same 8 bits.
pub open spec fn unsigned8(x: i8) -> u8 {
    if x >= 0 {
        x as u8
    } else {
        (x + 0x100) as u8
    }
}

/// The highest bit of a value of 8, 16 or 32 bits.
pub open spec fn top_bit(width: u32) -> u32 {
    if width == 8 {
        0x80
    } else if width == 16 {
        0x8000
    } else {
        0x8000_0000
    }
}

/// All bits of a value of 8, 16 or 32 bits.
pub open spec fn all_bits(width: u32) -> u32 {
    if width == 8 {
        0xFF
    } else if width == 16 {
        0xFFFF
    } else {
        0xFFFF_FFFF
    }
}

/// The bits of a signed value of `width` bits shifted right by `shift`,
/// the sign filling in from the left.
pub open spec fn shifted_right(u: u32, width: u32, shift: u32) -> u32 {
    if shift == 0 || u < top_bit(width) {
        u >> shift
    } else {
        (u >> shift) | ((all_bits(width) << ((width - shift) as u32)) & all_bits(width))
    }
}

/// The bits of a value of `width` bits shifted left by `shift`, what
/// passes the top being lost.
pub open spec fn shifted_left(u: u32, width: u32, shift: u32) -> u32 {
    (u << shift) & all_bits(width)
}

/// The bits of a cell that is read: the stored bits under the column's
/// mask, shifted right by the column's shift.
pub open spec fn unpacked(stored: u32, d: ColumnDefinition, width: u32) -> u32 {
    shifted_right(stored & d.bitmask & all_bits(width), width, d.shift as u32)
}

/// The bits of a cell that is written: the value's bits shifted left by
/// the column's shift, under the column's mask.
pub open spec fn packed(value: u32, d: ColumnDefinition, width: u32) -> u32 {
    shifted_left(value, width, d.shift as u32) & d.bitmask
}

/// The width in bits of the integers of a type; 0 for the other types.
pub open spec fn bits_of(ty: DataType) -> u32 {
    match ty {
        DataType::Int32 => 32,
        DataType::UInt32 => 32,
        DataType::Int16 => 16,
        DataType::Int8 => 8,
        _ => 0,
    }
}

/// The bytes of the text at `pos`: up to and with the next zero byte, or
/// up to the end of the buffer where there is none.
pub open spec fn text_bytes_at(b: Seq<u8>, pos: int) -> Seq<u8> {
    let end = crate::wii::utils::nul_from(b, pos);
    if end < b.len() {
        b.subrange(pos, end + 1)
    } else {
        b.subrange(pos, b.len() as int)
    }
}

/// The cell of column `d` that the bytes at `pos` hold, and where the next
/// cell starts. The texts of a column of offsets stand from `strings_at` on.
pub open spec fn entry_at(e: Endian, b: Seq<u8>, pos: int, d: ColumnDefinition, strings_at: int) -> BcsvResult<
    (ValueView, int),
> {
    let width = bits_of(d.ty);
    if width > 0 && d.shift >= width {
        Err(BcsvError::ShiftTooLarge(d.shift))
    } else if pos < 0 || pos + crate::bcsv::data::size_of(d.ty) > b.len() {
        Err(BcsvError::UnexpectedEnd)
    } else {
        match d.ty {
            DataType::Int32 => Ok(
                (
                    ValueView::Int32(signed32(unpacked(u32_of(e, b.subrange(pos, pos + 4)) as u32, d, 32))),
                    pos + 4,
                ),
            ),
            DataType::InlineString => Ok(
                (ValueView::InlineString(shift_jis_decoded(b.subrange(pos, pos + 32))), pos + 32),
            ),
            DataType::Float => Ok((ValueView::Float(u32_of(e, b.subrange(pos, pos + 4)) as u32), pos + 4)),
            DataType::UInt32 => Ok(
                (ValueView::UInt32((u32_of(e, b.subrange(pos, pos + 4)) as u32 & d.bitmask) >> d.shift), pos + 4),
            ),
            DataType::Int16 => Ok(
                (
                    ValueView::Int16(
                        signed16(unpacked(u16_of(e, b.subrange(pos, pos + 2)) as u32, d, 16) as u16),
                    ),
                    pos + 2,
                ),
            ),
            DataType::Int8 => Ok((ValueView::Int8(signed8(unpacked(b[pos] as u32, d, 8) as u8)), pos + 1)),
            DataType::OffsetString => {
                let at = strings_at + u32_of(e, b.subrange(pos, pos + 4));
                if at > b.len() {
                    Err(BcsvError::UnexpectedEnd)
                } else {
                    Ok((ValueView::OffsetString(shift_jis_decoded(text_bytes_at(b, at))), pos + 4))
                }
            },
            DataType::Null => Ok((ValueView::Null, pos)),
        }
    }
}

/// The highest bit and all bits of a value of 8, 16 or 32 bits.
fn bits(width: u32) -> (r: (u32, u32))
    ensures
        r.0 == top_bit(width),
        r.1 == all_bits(width),
{
    if width == 8 {
        (0x80, 0xFF)
    } else if width == 16 {
        (0x8000, 0xFFFF)
    } else {
        (0x8000_0000, 0xFFFF_FFFF)
    }
}

/// The bits of a cell that is read.
pub fn unpack(stored: u32, d: &ColumnDefinition, width: u32) -> (r: u32)
    requires
        width == 8 || width == 16 || width == 32,
        d.shift < width,
    ensures
        r == unpacked(stored, *d, width),
        r <= all_bits(width),
{
    let (top, all) = bits(width);
    let shift: u32 = d.shift as u32;
    let u: u32 = stored & d.bitmask & all;
    let r: u32 = if shift == 0 || u < top {
        u >> shift
    } else {
        (u >> shift) | ((all << (width - shift)) & all)
    };
    proof {
        lemma_unpacked_fits(stored & d.bitmask, width, shift);
    }
    r
}

/// The bits of a cell that is written.
pub fn pack(value: u32, d: &ColumnDefinition, width: u32) -> (r: u32)
    requires
        width == 8 || width == 16 || width == 32,
        d.shift < width,
    ensures
        r == packed(value, *d, width),
        r <= all_bits(width),
{
    let (_top, all) = bits(width);
    let shift: u32 = d.shift as u32;
    let r: u32 = ((value << shift) & all) & d.bitmask;
    proof {
        lemma_packed_fits(value << shift, d.bitmask, width);
    }
    r
}

/// What is shifted right within a width stays within the width.
proof fn lemma_unpacked_fits(x: u32, width: u32, shift: u32)
    requires
        width == 8 || width == 16 || width == 32,
        shift < width,
    ensures
        shifted_right(x & all_bits(width), width, shift) <= all_bits(width),
{
    let all = all_bits(width);
    let u = x & all;
    assert(u <= all) by (bit_vector)
        requires
            u == x & all,
    ;
    assert((u >> shift) <= all) by (bit_vector)
        requires
            u <= all,
    ;
    let fill = (all << ((width - shift) as u32)) & all;
    assert(fill <= all) by (bit_vector)
        requires
            fill == (all << ((width - shift) as u32)) & all,
    ;
    assert(((u >> shift) | fill) <= all) by (bit_vector)
        requires
            (u >> shift) <= all,
            fill <= all,
            all == 0xFFu32 || all == 0xFFFFu32 || all == 0xFFFF_FFFFu32,
    ;
}

/// What lies under all bits of a width and a mask stays within the width.
proof fn lemma_packed_fits(x: u32, mask: u32, width: u32)
    requires
        width == 8 || width == 16 || width == 32,
    ensures
        ((x & all_bits(width)) & mask) <= all_bits(width),
{
    let all = all_bits(width);
    assert(((x & all) & mask) <= all) by (bit_vector);
}

/// The signed value with the same 32 bits.
pub fn to_signed32(u: u32) -> (r: i32)
    ensures
        r == signed32(u),
{
    if u < 0x8000_0000 {
        u as i32
    } else {
        (u as i64 - 0x1_0000_0000i64) as i32
    }
}

/// The signed value with the same 16 bits.
pub fn to_signed16(u: u16) -> (r: i16)
    ensures
        r == signed16(u),
{
    if u < 0x8000 {
        u as i16
    } else {
        (u as i32 - 0x1_0000i32) as i16
    }
}

/// The signed value with the same 8 bits.
pub fn to_signed8(u: u8) -> (r: i8)
    ensures
        r == signed8(u),
{
    if u < 0x80 {
        u as i8
    } else {
        (u as i16 - 0x100i16) as i8
    }
}

/// The unsigned value with the same 32 bits.
pub fn to_unsigned32(x: i32) -> (r: u32)
    ensures
        r == unsigned32(x),
{
    if x >= 0 {
        x as u32
    } else {
        (x as i64 + 0x1_0000_0000i64) as u32
    }
}

/// The unsigned value with the same 16 bits.
pub fn to_unsigned16(x: i16) -> (r: u16)
    ensures
        r == unsigned16(x),
{
    if x >= 0 {
        x as u16
    } else {
        (x as i32 + 0x1_0000i32) as u16
    }
}

/// The unsigned value with the same 8 bits.
pub fn to_unsigned8(x: i8) -> (r: u8)
    ensures
        r == unsigned8(x),
{
    if x >= 0 {
        x as u8
    } else {
        (x as i16 + 0x100i16) as u8
    }
}

} // verus!
