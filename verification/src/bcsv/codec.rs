//! A table as bytes: the header, the definitions of the columns, the rows,
//! the pool of strings, and `@` signs up to the next multiple of 32.

use crate::bcsv::data::{size_of, DataType};
use crate::bcsv::definition::{definition_at, definition_bytes, ColumnDefinition};
use crate::bcsv::entry::{entry_at, pack, packed, to_signed16, to_signed32, to_signed8, to_unsigned16, to_unsigned32, to_unsigned8, unpack, unsigned16, unsigned32, unsigned8};
use crate::bcsv::error::{BcsvError, BcsvResult};
use crate::bcsv::header::{header_bytes, header_of, BcsvHeader};
use crate::bcsv::table::{row_fits, Table, MAX_COLUMNS};
use crate::bcsv::value::{type_of_value, DataValue, ValueView};
use crate::endian::{get_u16, get_u32, put_slice, put_u16, put_u32, put_u8, u16_bytes, u32_bytes, Endian};
use crate::jsystem::rarc::utils::{decode_shift_jis, encode_shift_jis, shift_jis_encoded};
use crate::wii::utils::find_nul;
use vstd::prelude::*;

verus! {

/// The values of a row as the contracts see them.
pub open spec fn values_view(v: Seq<DataValue>) -> Seq<ValueView> {
    Seq::new(v.len(), |i: int| v[i]@)
}

/// The rows of a table as the contracts see them.
pub open spec fn table_view(rows: Seq<Vec<DataValue>>) -> Seq<Seq<ValueView>> {
    Seq::new(rows.len(), |i: int| values_view(rows[i]@))
}

/// The first `c` cells of a row that starts at `pos`, and where the cell
/// after them starts.
pub open spec fn cells_read(
    e: Endian,
    b: Seq<u8>,
    pos: int,
    fields: Seq<ColumnDefinition>,
    strings_at: int,
    c: int,
) -> BcsvResult<(Seq<ValueView>, int)>
    decreases c,
{
    if c <= 0 {
        Ok((Seq::empty(), pos))
    } else {
        match cells_read(e, b, pos, fields, strings_at, c - 1) {
            Err(x) => Err(x),
            Ok((values, at)) => match entry_at(e, b, at, fields[c - 1], strings_at) {
                Err(x) => Err(x),
                Ok((v, next)) => Ok((values.push(v), next)),
            },
        }
    }
}

/// The first `r` rows of a table whose rows start at `pos`, and where the
/// row after them starts.
pub open spec fn rows_read(
    e: Endian,
    b: Seq<u8>,
    pos: int,
    fields: Seq<ColumnDefinition>,
    strings_at: int,
    r: int,
) -> BcsvResult<(Seq<Seq<ValueView>>, int)>
    decreases r,
{
    if r <= 0 {
        Ok((Seq::empty(), pos))
    } else {
        match rows_read(e, b, pos, fields, strings_at, r - 1) {
            Err(x) => Err(x),
            Ok((rows, at)) => match cells_read(e, b, at, fields, strings_at, fields.len() as int) {
                Err(x) => Err(x),
                Ok((values, next)) => Ok((rows.push(values), next)),
            },
        }
    }
}

/// The definitions of the first `c` columns.
pub open spec fn fields_read(e: Endian, b: Seq<u8>, c: int) -> BcsvResult<Seq<ColumnDefinition>>
    decreases c,
{
    if c <= 0 {
        Ok(Seq::empty())
    } else {
        match fields_read(e, b, c - 1) {
            Err(x) => Err(x),
            Ok(fields) => match definition_at(e, b, 16 + 12 * (c - 1)) {
                Err(x) => Err(x),
                Ok(d) => Ok(fields.push(d)),
            },
        }
    }
}

/// The columns and rows that a buffer holds as a table. The rows follow
/// the definitions; the texts of the columns of offsets stand behind the
/// header's data offset and one byte for every cell. A table without
/// columns has no rows.
pub open spec fn table_of(e: Endian, b: Seq<u8>) -> BcsvResult<(Seq<ColumnDefinition>, Seq<Seq<ValueView>>)> {
    match header_of(e, b) {
        Err(x) => Err(x),
        Ok(h) => if h.column_count > MAX_COLUMNS {
            Err(BcsvError::TooManyColumns)
        } else {
            match fields_read(e, b, h.column_count as int) {
                Err(x) => Err(x),
                Ok(fields) => if h.column_count == 0 {
                    Ok((fields, Seq::empty()))
                } else {
                    match rows_read(
                        e,
                        b,
                        16 + 12 * h.column_count,
                        fields,
                        h.data_offset + h.row_count * h.column_count,
                        h.row_count as int,
                    ) {
                        Err(x) => Err(x),
                        Ok((rows, _)) => Ok((fields, rows)),
                    }
                },
            }
        },
    }
}

/// The bytes of a cell, and what the pool of strings gains by it. A text
/// is added to the pool as it is, and the cell holds where it starts.
#[verifier::opaque]
pub open spec fn cell_written(e: Endian, v: ValueView, d: ColumnDefinition, pool_len: int) -> BcsvResult<
    (Seq<u8>, Seq<u8>),
> {
    match v {
        ValueView::Int32(x) => if d.shift >= 32 {
            Err(BcsvError::ShiftTooLarge(d.shift))
        } else {
            Ok((u32_bytes(e, packed(unsigned32(x), d, 32)), Seq::empty()))
        },
        ValueView::InlineString(_) => Err(BcsvError::InlineStringUnsupported),
        ValueView::Float(x) => Ok((u32_bytes(e, x), Seq::empty())),
        ValueView::UInt32(x) => if d.shift >= 32 {
            Err(BcsvError::ShiftTooLarge(d.shift))
        } else {
            Ok((u32_bytes(e, packed(x, d, 32)), Seq::empty()))
        },
        ValueView::Int16(x) => if d.shift >= 16 {
            Err(BcsvError::ShiftTooLarge(d.shift))
        } else {
            Ok((u16_bytes(e, packed(unsigned16(x) as u32, d, 16) as u16), Seq::empty()))
        },
        ValueView::Int8(x) => if d.shift >= 8 {
            Err(BcsvError::ShiftTooLarge(d.shift))
        } else {
            Ok((seq![packed(unsigned8(x) as u32, d, 8) as u8], Seq::empty()))
        },
        ValueView::OffsetString(s) => if pool_len > 0xFFFF_FFFF {
            Err(BcsvError::TooLarge)
        } else {
            Ok((u32_bytes(e, pool_len as u32), shift_jis_encoded(s).0))
        },
        ValueView::Null => Ok((Seq::empty(), Seq::empty())),
    }
}

/// The rows and the pool after the first `c` cells of a row were written
/// behind `acc`.
pub open spec fn cells_written(
    e: Endian,
    fields: Seq<ColumnDefinition>,
    values: Seq<ValueView>,
    c: int,
    acc: (Seq<u8>, Seq<u8>),
) -> BcsvResult<(Seq<u8>, Seq<u8>)>
    decreases c,
{
    if c <= 0 {
        Ok(acc)
    } else {
        match cells_written(e, fields, values, c - 1, acc) {
            Err(x) => Err(x),
            Ok(mid) => match cell_written(e, values[c - 1], fields[c - 1], mid.1.len() as int) {
                Err(x) => Err(x),
                Ok((bytes, text)) => Ok((mid.0 + bytes, mid.1 + text)),
            },
        }
    }
}

/// The rows and the pool after the first `r` rows were written.
pub open spec fn rows_written(
    e: Endian,
    fields: Seq<ColumnDefinition>,
    rows: Seq<Seq<ValueView>>,
    r: int,
) -> BcsvResult<(Seq<u8>, Seq<u8>)>
    decreases r,
{
    if r <= 0 {
        Ok((Seq::empty(), Seq::empty()))
    } else {
        match rows_written(e, fields, rows, r - 1) {
            Err(x) => Err(x),
            Ok(mid) => cells_written(e, fields, rows[r - 1], fields.len() as int, mid),
        }
    }
}

/// The bytes of the definitions of the first `c` columns.
pub open spec fn fields_written(e: Endian, fields: Seq<ColumnDefinition>, c: int) -> Seq<u8>
    decreases c,
{
    if c <= 0 {
        Seq::empty()
    } else {
        fields_written(e, fields, c - 1) + definition_bytes(e, fields[c - 1])
    }
}

/// The width of a row: the widths of the columns together.
pub open spec fn row_width(fields: Seq<ColumnDefinition>, c: int) -> int
    decreases c,
{
    if c <= 0 {
        0
    } else {
        row_width(fields, c - 1) + size_of(fields[c - 1].ty)
    }
}

/// `n` signs `@`.
pub open spec fn filler(n: nat) -> Seq<u8> {
    Seq::new(n, |i: int| 0x40u8)
}

/// The header of a table that is written.
pub open spec fn written_header(fields: Seq<ColumnDefinition>, rows: int) -> BcsvHeader {
    BcsvHeader {
        row_count: rows as u32,
        column_count: fields.len() as u32,
        data_offset: (16 + 12 * fields.len()) as u32,
        row_size: row_width(fields, fields.len() as int) as u32,
    }
}

/// How many signs fill a table up: as many as its size, reckoned from the
/// number and width of its rows and the length of the pool, lacks to the
/// next multiple of 32.
pub open spec fn fill_len(fields: Seq<ColumnDefinition>, rows: int, pool_len: int) -> int {
    let size = 16 + 12 * fields.len() + rows * row_width(fields, fields.len() as int) + pool_len;
    (size + 31) / 32 * 32 - size
}

/// The bytes that a table is written as, or why it cannot be written.
pub open spec fn table_written(e: Endian, fields: Seq<ColumnDefinition>, rows: Seq<Seq<ValueView>>) -> BcsvResult<
    Seq<u8>,
> {
    if rows.len() > 0xFFFF_FFFF {
        Err(BcsvError::TooLarge)
    } else {
        match rows_written(e, fields, rows, rows.len() as int) {
            Err(x) => Err(x),
            Ok((body, pool)) => Ok(
                header_bytes(e, written_header(fields, rows.len() as int)) + fields_written(
                    e,
                    fields,
                    fields.len() as int,
                ) + body + pool + filler(fill_len(fields, rows.len() as int, pool.len() as int) as nat),
            ),
        }
    }
}

impl ColumnDefinition {
    /// Reads the cell of this column at `pos`, and tells where the next
    /// cell starts.
    pub fn read_entry(&self, endian: Endian, buffer: &[u8], pos: usize, string_offset: u64) -> (r:
        BcsvResult<(DataValue, usize)>)
        ensures
            match r {
                Ok((v, next)) => entry_at(endian, buffer@, pos as int, *self, string_offset as int)
                    == Ok::<(ValueView, int), BcsvError>((v@, next as int)) && type_of_value(v)
                    == self.ty,
                Err(x) => entry_at(endian, buffer@, pos as int, *self, string_offset as int) == Err::<
                    (ValueView, int),
                    BcsvError,
                >(x),
            },
    {
        let len: usize = buffer.len();
        let width: u8 = match self.ty {
            DataType::Int32 => 32,
            DataType::UInt32 => 32,
            DataType::Int16 => 16,
            DataType::Int8 => 8,
            _ => 0,
        };
        if width > 0 && self.shift >= width {
            return Err(BcsvError::ShiftTooLarge(self.shift));
        }
        if pos > len || self.ty.size() > len - pos {
            return Err(BcsvError::UnexpectedEnd);
        }
        match self.ty {
            DataType::Int32 => {
                let stored: u32 = get_u32(endian, buffer, pos);
                Ok((DataValue::Int32(to_signed32(unpack(stored, self, 32))), pos + 4))
            },
            DataType::InlineString => {
                let bytes: &[u8] = vstd::slice::slice_subrange(buffer, pos, pos + 32);
                Ok((DataValue::InlineString(decode_shift_jis(bytes)), pos + 32))
            },
            DataType::Float => Ok((DataValue::Float(get_u32(endian, buffer, pos)), pos + 4)),
            DataType::UInt32 => {
                let stored: u32 = get_u32(endian, buffer, pos);
                Ok((DataValue::UInt32((stored & self.bitmask) >> self.shift), pos + 4))
            },
            DataType::Int16 => {
                let stored: u16 = get_u16(endian, buffer, pos);
                let bits: u32 = unpack(stored as u32, self, 16);
                Ok((DataValue::Int16(to_signed16(bits as u16)), pos + 2))
            },
            DataType::Int8 => {
                let bits: u32 = unpack(buffer[pos] as u32, self, 8);
                Ok((DataValue::Int8(to_signed8(bits as u8)), pos + 1))
            },
            DataType::OffsetString => {
                let offset: u32 = get_u32(endian, buffer, pos);
                if string_offset > len as u64 || offset as u64 > len as u64 - string_offset {
                    return Err(BcsvError::UnexpectedEnd);
                }
                let at: usize = (string_offset + offset as u64) as usize;
                let end: usize = find_nul(buffer, at);
                let bytes: &[u8] = if end < len {
                    vstd::slice::slice_subrange(buffer, at, end + 1)
                } else {
                    vstd::slice::slice_subrange(buffer, at, len)
                };
                Ok((DataValue::OffsetString(decode_shift_jis(bytes)), pos + 4))
            },
            DataType::Null => Ok((DataValue::Null, pos)),
        }
    }

    /// Appends the bytes of a cell of this column to `out`, and a text to
    /// the pool of strings.
    pub fn write_entry(&self, endian: Endian, value: &DataValue, out: &mut Vec<u8>, pool: &mut Vec<u8>) -> (r:
        BcsvResult<()>)
        ensures
            match cell_written(endian, value@, *self, old(pool)@.len() as int) {
                Ok((bytes, text)) => r.is_ok() && final(out)@ == old(out)@ + bytes && final(pool)@ == old(
                    pool,
                )@ + text,
                Err(x) => r == Err::<(), BcsvError>(x) && final(out)@ == old(out)@ && final(pool)@ == old(
                    pool,
                )@,
            },
    {
        let ghost out0 = out@;
        let ghost pool0 = pool@;
        reveal(cell_written);
        match value {
            DataValue::Int32(x) => {
                if self.shift >= 32 {
                    return Err(BcsvError::ShiftTooLarge(self.shift));
                }
                put_u32(endian, out, pack(to_unsigned32(*x), self, 32));
            },
            DataValue::InlineString(_) => {
                return Err(BcsvError::InlineStringUnsupported);
            },
            DataValue::Float(x) => {
                put_u32(endian, out, *x);
            },
            DataValue::UInt32(x) => {
                if self.shift >= 32 {
                    return Err(BcsvError::ShiftTooLarge(self.shift));
                }
                put_u32(endian, out, pack(*x, self, 32));
            },
            DataValue::Int16(x) => {
                if self.shift >= 16 {
                    return Err(BcsvError::ShiftTooLarge(self.shift));
                }
                put_u16(endian, out, pack(to_unsigned16(*x) as u32, self, 16) as u16);
            },
            DataValue::Int8(x) => {
                if self.shift >= 8 {
                    return Err(BcsvError::ShiftTooLarge(self.shift));
                }
                put_u8(out, pack(to_unsigned8(*x) as u32, self, 8) as u8);
            },
            DataValue::OffsetString(x) => {
                if pool.len() > 0xFFFF_FFFF {
                    return Err(BcsvError::TooLarge);
                }
                let offset: u32 = pool.len() as u32;
                let (text, _unmappable) = encode_shift_jis(x.as_str());
                put_slice(pool, text.as_slice());
                put_u32(endian, out, offset);
            },
            DataValue::Null => {},
        }
        proof {
            match cell_written(endian, value@, *self, pool0.len() as int) {
                Ok((bytes, text)) => {
                    assert(out@ =~= out0 + bytes);
                    assert(pool@ =~= pool0 + text);
                },
                Err(_) => {},
            }
        }
        Ok(())
    }
}

/// Where the definitions of some columns cannot be read, those of more
/// columns cannot be read.
proof fn lemma_fields_fail(e: Endian, b: Seq<u8>, c: int, n: int, x: BcsvError)
    requires
        0 < c <= n,
        fields_read(e, b, c) == Err::<Seq<ColumnDefinition>, BcsvError>(x),
    ensures
        fields_read(e, b, n) == Err::<Seq<ColumnDefinition>, BcsvError>(x),
    decreases n - c,
{
    if c < n {
        lemma_fields_fail(e, b, c + 1, n, x);
    }
}

/// Where some cells of a row cannot be read, the row cannot be read.
proof fn lemma_cells_fail(
    e: Endian,
    b: Seq<u8>,
    pos: int,
    fields: Seq<ColumnDefinition>,
    strings_at: int,
    c: int,
    n: int,
    x: BcsvError,
)
    requires
        0 < c <= n,
        cells_read(e, b, pos, fields, strings_at, c) == Err::<(Seq<ValueView>, int), BcsvError>(x),
    ensures
        cells_read(e, b, pos, fields, strings_at, n) == Err::<(Seq<ValueView>, int), BcsvError>(x),
    decreases n - c,
{
    if c < n {
        lemma_cells_fail(e, b, pos, fields, strings_at, c + 1, n, x);
    }
}

/// Where some rows cannot be read, the rows cannot be read.
proof fn lemma_rows_fail(
    e: Endian,
    b: Seq<u8>,
    pos: int,
    fields: Seq<ColumnDefinition>,
    strings_at: int,
    r: int,
    n: int,
    x: BcsvError,
)
    requires
        0 < r <= n,
        rows_read(e, b, pos, fields, strings_at, r) == Err::<(Seq<Seq<ValueView>>, int), BcsvError>(x),
    ensures
        rows_read(e, b, pos, fields, strings_at, n) == Err::<(Seq<Seq<ValueView>>, int), BcsvError>(x),
    decreases n - r,
{
    if r < n {
        lemma_rows_fail(e, b, pos, fields, strings_at, r + 1, n, x);
    }
}

/// Where some rows cannot be written, the rows cannot be written.
proof fn lemma_rows_write_fail(
    e: Endian,
    fields: Seq<ColumnDefinition>,
    rows: Seq<Seq<ValueView>>,
    r: int,
    n: int,
    x: BcsvError,
)
    requires
        0 < r <= n,
        rows_written(e, fields, rows, r) == Err::<(Seq<u8>, Seq<u8>), BcsvError>(x),
    ensures
        rows_written(e, fields, rows, n) == Err::<(Seq<u8>, Seq<u8>), BcsvError>(x),
    decreases n - r,
{
    if r < n {
        lemma_rows_write_fail(e, fields, rows, r + 1, n, x);
    }
}

/// Where some cells cannot be written, the row cannot be written.
proof fn lemma_cells_write_fail(
    e: Endian,
    fields: Seq<ColumnDefinition>,
    values: Seq<ValueView>,
    c: int,
    n: int,
    acc: (Seq<u8>, Seq<u8>),
    x: BcsvError,
)
    requires
        0 < c <= n,
        cells_written(e, fields, values, c, acc) == Err::<(Seq<u8>, Seq<u8>), BcsvError>(x),
    ensures
        cells_written(e, fields, values, n, acc) == Err::<(Seq<u8>, Seq<u8>), BcsvError>(x),
    decreases n - c,
{
    if c < n {
        lemma_cells_write_fail(e, fields, values, c + 1, n, acc, x);
    }
}

/// Reads the definitions of `count` columns.
fn read_fields(endian: Endian, buffer: &[u8], count: u32) -> (r: BcsvResult<Vec<ColumnDefinition>>)
    ensures
        match r {
            Ok(v) => fields_read(endian, buffer@, count as int) == Ok::<Seq<ColumnDefinition>, BcsvError>(
                v@,
            ) && v@.len() == count,
            Err(x) => fields_read(endian, buffer@, count as int) == Err::<
                Seq<ColumnDefinition>,
                BcsvError,
            >(x),
        },
{
    let len: usize = buffer.len();
    let mut fields: Vec<ColumnDefinition> = Vec::new();
    let mut c: u32 = 0;
    while c < count
        invariant
            c <= count,
            len == buffer@.len(),
            fields@.len() == c,
            fields_read(endian, buffer@, c as int) == Ok::<Seq<ColumnDefinition>, BcsvError>(fields@),
        decreases count - c,
    {
        let at: u64 = 16 + 12 * (c as u64);
        if at > len as u64 {
            proof {
                lemma_fields_fail(endian, buffer@, c + 1, count as int, BcsvError::UnexpectedEnd);
            }
            return Err(BcsvError::UnexpectedEnd);
        }
        match ColumnDefinition::read(endian, buffer, at as usize) {
            Ok(d) => {
                fields.push(d);
            },
            Err(x) => {
                proof {
                    lemma_fields_fail(endian, buffer@, c + 1, count as int, x);
                }
                return Err(x);
            },
        }
        c += 1;
    }
    Ok(fields)
}

/// Reads one row.
fn read_row(endian: Endian, buffer: &[u8], pos: usize, fields: &Vec<ColumnDefinition>, string_offset: u64) -> (r:
    BcsvResult<(Vec<DataValue>, usize)>)
    ensures
        match r {
            Ok((v, next)) => cells_read(
                endian,
                buffer@,
                pos as int,
                fields@,
                string_offset as int,
                fields@.len() as int,
            ) == Ok::<(Seq<ValueView>, int), BcsvError>((values_view(v@), next as int)) && row_fits(
                fields@,
                v@,
            ),
            Err(x) => cells_read(
                endian,
                buffer@,
                pos as int,
                fields@,
                string_offset as int,
                fields@.len() as int,
            ) == Err::<(Seq<ValueView>, int), BcsvError>(x),
        },
{
    let n: usize = fields.len();
    let mut values: Vec<DataValue> = Vec::new();
    let mut at: usize = pos;
    let mut c: usize = 0;
    assert(values_view(values@) =~= Seq::<ValueView>::empty());
    while c < n
        invariant
            c <= n,
            n == fields@.len(),
            values@.len() == c,
            cells_read(endian, buffer@, pos as int, fields@, string_offset as int, c as int) == Ok::<
                (Seq<ValueView>, int),
                BcsvError,
            >((values_view(values@), at as int)),
            forall|k: int| 0 <= k < c ==> (#[trigger] fields@[k]).ty == type_of_value(values@[k]),
        decreases n - c,
    {
        match fields[c].read_entry(endian, buffer, at, string_offset) {
            Ok((v, next)) => {
                let ghost before = values_view(values@);
                values.push(v);
                assert(values_view(values@) =~= before.push(v@));
                at = next;
            },
            Err(x) => {
                proof {
                    lemma_cells_fail(
                        endian,
                        buffer@,
                        pos as int,
                        fields@,
                        string_offset as int,
                        c + 1,
                        n as int,
                        x,
                    );
                }
                return Err(x);
            },
        }
        c += 1;
    }
    Ok((values, at))
}

/// Appends the cells of one row to the rows, and its texts to the pool.
fn write_row(
    endian: Endian,
    fields: &Vec<ColumnDefinition>,
    row: &Vec<DataValue>,
    body: &mut Vec<u8>,
    pool: &mut Vec<u8>,
) -> (r: BcsvResult<()>)
    requires
        row@.len() == fields@.len(),
    ensures
        match r {
            Ok(_) => cells_written(
                endian,
                fields@,
                values_view(row@),
                fields@.len() as int,
                (old(body)@, old(pool)@),
            ) == Ok::<(Seq<u8>, Seq<u8>), BcsvError>((final(body)@, final(pool)@)),
            Err(x) => cells_written(
                endian,
                fields@,
                values_view(row@),
                fields@.len() as int,
                (old(body)@, old(pool)@),
            ) == Err::<(Seq<u8>, Seq<u8>), BcsvError>(x),
        },
{
    let columns: usize = fields.len();
    let ghost start = (body@, pool@);
    let ghost values = values_view(row@);
    let mut q: usize = 0;
    while q < columns
        invariant
            q <= columns,
            columns == fields@.len(),
            columns == row@.len(),
            values == values_view(row@),
            start == (old(body)@, old(pool)@),
            cells_written(endian, fields@, values, q as int, start) == Ok::<
                (Seq<u8>, Seq<u8>),
                BcsvError,
            >((body@, pool@)),
        decreases columns - q,
    {
        assert(values[q as int] == row@[q as int]@);
        match fields[q].write_entry(endian, &row[q], body, pool) {
            Ok(_) => {},
            Err(x) => {
                proof {
                    assert(cell_written(endian, values[q as int], fields@[q as int], pool@.len() as int)
                        == Err::<(Seq<u8>, Seq<u8>), BcsvError>(x));
                    assert(cells_written(endian, fields@, values, q + 1, start) == Err::<
                        (Seq<u8>, Seq<u8>),
                        BcsvError,
                    >(x));
                    lemma_cells_write_fail(endian, fields@, values, q + 1, columns as int, start, x);
                }
                return Err(x);
            },
        }
        q += 1;
    }
    Ok(())
}

impl Table {
    /// Reads a table, with integers in the given byte order.
    pub fn read(endian: Endian, buffer: &[u8]) -> (r: BcsvResult<Table>)
        ensures
            match r {
                Ok(t) => table_of(endian, buffer@) == Ok::<
                    (Seq<ColumnDefinition>, Seq<Seq<ValueView>>),
                    BcsvError,
                >((t.fields@, table_view(t.rows@))) && t.wf(),
                Err(x) => table_of(endian, buffer@) == Err::<
                    (Seq<ColumnDefinition>, Seq<Seq<ValueView>>),
                    BcsvError,
                >(x),
            },
    {
        let header: BcsvHeader = BcsvHeader::read(endian, buffer)?;
        if header.column_count > 0xFFFF {
            return Err(BcsvError::TooManyColumns);
        }
        let fields: Vec<ColumnDefinition> = read_fields(endian, buffer, header.column_count)?;
        let mut rows: Vec<Vec<DataValue>> = Vec::new();
        assert(table_view(rows@) =~= Seq::<Seq<ValueView>>::empty());
        if header.column_count == 0 {
            return Ok(Table { fields, rows });
        }
        let start: usize = 16 + 12 * (header.column_count as usize);
        assert(header.row_count * header.column_count <= 0xFFFF_FFFF * 0xFFFF) by (nonlinear_arith)
            requires
                0 <= header.row_count <= 0xFFFF_FFFF,
                0 <= header.column_count <= 0xFFFF,
        ;
        let cells: u64 = (header.row_count as u64) * (header.column_count as u64);
        let string_offset: u64 = header.data_offset as u64 + cells;
        let mut at: usize = start;
        let mut k: u32 = 0;
        while k < header.row_count
            invariant
                k <= header.row_count,
                0 < header.column_count <= 0xFFFF,
                crate::bcsv::header::header_of(endian, buffer@) == Ok::<BcsvHeader, BcsvError>(header),
                fields_read(endian, buffer@, header.column_count as int) == Ok::<
                    Seq<ColumnDefinition>,
                    BcsvError,
                >(fields@),
                fields@.len() == header.column_count,
                start == 16 + 12 * header.column_count,
                string_offset == header.data_offset + header.row_count * header.column_count,
                rows@.len() == k,
                rows_read(endian, buffer@, start as int, fields@, string_offset as int, k as int) == Ok::<
                    (Seq<Seq<ValueView>>, int),
                    BcsvError,
                >((table_view(rows@), at as int)),
                forall|q: int| 0 <= q < k ==> row_fits(fields@, #[trigger] rows@[q]@),
            decreases header.row_count - k,
        {
            match read_row(endian, buffer, at, &fields, string_offset) {
                Ok((values, next)) => {
                    let ghost before = table_view(rows@);
                    let ghost row = values_view(values@);
                    rows.push(values);
                    assert(table_view(rows@) =~= before.push(row));
                    at = next;
                },
                Err(x) => {
                    proof {
                        lemma_rows_fail(
                            endian,
                            buffer@,
                            start as int,
                            fields@,
                            string_offset as int,
                            k + 1,
                            header.row_count as int,
                            x,
                        );
                    }
                    return Err(x);
                },
            }
            k += 1;
        }
        Ok(Table { fields, rows })
    }

    /// The bytes of the table, with integers in the given byte order.
    pub fn write(&self, endian: Endian) -> (r: BcsvResult<Vec<u8>>)
        requires
            self.wf(),
        ensures
            match r {
                Ok(v) => table_written(endian, self.fields@, table_view(self.rows@)) == Ok::<
                    Seq<u8>,
                    BcsvError,
                >(v@),
                Err(x) => table_written(endian, self.fields@, table_view(self.rows@)) == Err::<
                    Seq<u8>,
                    BcsvError,
                >(x),
            },
    {
        let columns: usize = self.fields.len();
        let count: usize = self.rows.len();
        let ghost view = table_view(self.rows@);
        if count > 0xFFFF_FFFF {
            return Err(BcsvError::TooLarge);
        }
        let mut width: u32 = 0;
        let mut definitions: Vec<u8> = Vec::new();
        let mut c: usize = 0;
        while c < columns
            invariant
                c <= columns,
                columns == self.fields@.len(),
                columns <= 0xFFFF,
                width == row_width(self.fields@, c as int),
                width <= 32 * c,
                definitions@ == fields_written(endian, self.fields@, c as int),
            decreases columns - c,
        {
            width = width + self.fields[c].ty.size() as u32;
            self.fields[c].write(endian, &mut definitions);
            c += 1;
        }
        let mut body: Vec<u8> = Vec::new();
        let mut pool: Vec<u8> = Vec::new();
        let mut k: usize = 0;
        while k < count
            invariant
                k <= count,
                count == self.rows@.len(),
                count <= 0xFFFF_FFFF,
                columns == self.fields@.len(),
                self.wf(),
                view == table_view(self.rows@),
                rows_written(endian, self.fields@, view, k as int) == Ok::<
                    (Seq<u8>, Seq<u8>),
                    BcsvError,
                >((body@, pool@)),
            decreases count - k,
        {
            let row: &Vec<DataValue> = &self.rows[k];
            assert(row_fits(self.fields@, row@));
            assert(view[k as int] == values_view(row@));
            match write_row(endian, &self.fields, row, &mut body, &mut pool) {
                Ok(_) => {},
                Err(x) => {
                    proof {
                        lemma_rows_write_fail(endian, self.fields@, view, k + 1, count as int, x);
                    }
                    return Err(x);
                },
            }
            k += 1;
        }
        let header = BcsvHeader {
            row_count: count as u32,
            column_count: columns as u32,
            data_offset: (16 + 12 * columns) as u32,
            row_size: width,
        };
        assert(header == written_header(self.fields@, view.len() as int));
        assert((count as int) * (width as int) <= 0xFFFF_FFFF * 0x20_0000) by (nonlinear_arith)
            requires
                0 <= count <= 0xFFFF_FFFF,
                0 <= width <= 0x20_0000,
        ;
        let size: u128 = 16 + 12 * (columns as u128) + (count as u128) * (width as u128) + pool.len() as u128;
        let fill: u128 = (size + 31) / 32 * 32 - size;
        let mut out: Vec<u8> = Vec::new();
        header.write(endian, &mut out);
        put_slice(&mut out, definitions.as_slice());
        put_slice(&mut out, body.as_slice());
        put_slice(&mut out, pool.as_slice());
        let ghost before = out@;
        let mut i: usize = 0;
        while i < fill as usize
            invariant
                i <= fill,
                fill < 32,
                out@ == before + filler(i as nat),
            decreases fill - i,
        {
            out.push(0x40u8);
            i += 1;
            assert(out@ =~= before + filler(i as nat));
        }
        Ok(out)
    }
}

} // verus!
