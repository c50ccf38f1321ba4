//! A table of typed columns, and its rows as bytes.

use crate::bcsv::definition::ColumnDefinition;
use crate::bcsv::entry::{pack, packed, to_signed16, to_signed32, to_unsigned16, to_unsigned32, unpack, unpacked, signed16, signed32, unsigned16, unsigned32};
use crate::endian::{get_u16, get_u32, put_slice, put_u16, put_u32, put_u8, u16_bytes, u16_of, u32_bytes, u32_of, Endian};
use crate::jsystem::bcsv::data::{size_of, DataType};
use crate::jsystem::bcsv::error::{BcsvError, BcsvResult};
use crate::jsystem::bcsv::field::{field_at, field_bytes, BcsvFieldDefinition};
use crate::jsystem::bcsv::header::{header_bytes, header_of, BcsvHeader};
use crate::jsystem::bcsv::row::StringWriter;
use crate::jsystem::bcsv::value::{type_of_value, DataValue, ValueView};
use crate::jsystem::rarc::utils::{decode_shift_jis, shift_jis_decoded, shift_jis_encoded};
use crate::wii::utils::{find_nul, nul_from};
use vstd::prelude::*;

verus! {

/// One row of a table.
pub struct BcsvRow(pub Vec<DataValue>);

/// A table: its rows, and the definitions of its columns.
pub struct BcsvTable(pub Vec<BcsvRow>, pub Vec<BcsvFieldDefinition>);

/// The values of a row as the contracts see them.
pub open spec fn values_view(v: Seq<DataValue>) -> Seq<ValueView> {
    Seq::new(v.len(), |i: int| v[i]@)
}

/// The rows as the contracts see them.
pub open spec fn rows_view(rows: Seq<BcsvRow>) -> Seq<Seq<DataValue>> {
    Seq::new(rows.len(), |i: int| rows[i].0@)
}

/// The mask and the shift of a column, in the form that the helpers for
/// bits take them.
pub open spec fn bits_of(d: BcsvFieldDefinition) -> ColumnDefinition {
    ColumnDefinition {
        name: 0,
        bitmask: d.bitmask,
        offset: 0,
        shift: d.shift_amount,
        ty: crate::bcsv::data::DataType::Int32,
    }
}

/// The first column in which a row has a value of another type than the
/// column, or the number of columns where there is none.
pub open spec fn first_mismatch(fields: Seq<BcsvFieldDefinition>, values: Seq<DataValue>, from: int) -> int
    decreases fields.len() - from,
{
    if from < 0 || from >= fields.len() || from >= values.len() {
        fields.len() as int
    } else if fields[from].data_type != type_of_value(values[from]) {
        from
    } else {
        first_mismatch(fields, values, from + 1)
    }
}

/// What checking a row against the columns answers.
pub open spec fn validated(fields: Seq<BcsvFieldDefinition>, values: Seq<DataValue>) -> BcsvResult<()> {
    if values.len() != fields.len() {
        Err(BcsvError::InvalidRowLength { expected: fields.len() as usize, actual: values.len() as usize })
    } else if first_mismatch(fields, values, 0) < fields.len() {
        let c = first_mismatch(fields, values, 0);
        Err(
            BcsvError::InvalidRowDataType {
                index: c as usize,
                expected: fields[c].data_type,
                actual: type_of_value(values[c]),
            },
        )
    } else {
        Ok(())
    }
}

/// The cell of column `d` in the row `row`, with the pool `strings`. The
/// integers of 32 bits are read under the column's mask and shift; an
/// inline string is read as the empty text.
pub open spec fn cell_at(row: Seq<u8>, d: BcsvFieldDefinition, strings: Seq<u8>) -> BcsvResult<ValueView> {
    let pos = d.entry_offset as int;
    if d.data_type == DataType::Int32 && d.shift_amount >= 32 {
        Err(BcsvError::ShiftTooLarge(d.shift_amount))
    } else if d.data_type != DataType::InlineString && pos + size_of(d.data_type) > row.len() {
        Err(BcsvError::UnexpectedEnd)
    } else {
        match d.data_type {
            DataType::Int32 => Ok(
                ValueView::Int32(
                    signed32(unpacked(u32_of(Endian::Big, row.subrange(pos, pos + 4)) as u32, bits_of(d), 32)),
                ),
            ),
            DataType::InlineString => Ok(ValueView::InlineString(Seq::empty())),
            DataType::Float => Ok(ValueView::Float(u32_of(Endian::Big, row.subrange(pos, pos + 4)) as u32)),
            DataType::UInt32 => Ok(ValueView::UInt32(u32_of(Endian::Big, row.subrange(pos, pos + 4)) as u32)),
            DataType::Int16 => Ok(
                ValueView::Int16(signed16(u16_of(Endian::Big, row.subrange(pos, pos + 2)) as u16)),
            ),
            DataType::Byte => Ok(ValueView::Byte(row[pos])),
            DataType::String => {
                let at = u32_of(Endian::Big, row.subrange(pos, pos + 4));
                if at > strings.len() || nul_from(strings, at) >= strings.len() {
                    Err(BcsvError::UnexpectedEnd)
                } else {
                    Ok(ValueView::String(shift_jis_decoded(strings.subrange(at, nul_from(strings, at)))))
                }
            },
            DataType::Null => Ok(ValueView::Null),
        }
    }
}

/// The first `c` cells of a row.
pub open spec fn cells_at(row: Seq<u8>, fields: Seq<BcsvFieldDefinition>, strings: Seq<u8>, c: int) -> BcsvResult<
    Seq<ValueView>,
>
    decreases c,
{
    if c <= 0 {
        Ok(Seq::empty())
    } else {
        match cells_at(row, fields, strings, c - 1) {
            Err(x) => Err(x),
            Ok(values) => match cell_at(row, fields[c - 1], strings) {
                Err(x) => Err(x),
                Ok(v) => Ok(values.push(v)),
            },
        }
    }
}

/// The bytes of a cell, and what the pool of strings gains by it. An
/// integer of 32 bits is written under the column's mask and shift unless
/// the mask is all ones; an inline string and nothing are not written.
#[verifier::opaque]
pub open spec fn cell_written(v: ValueView, d: BcsvFieldDefinition, pool_len: int) -> BcsvResult<
    (Seq<u8>, Seq<u8>),
> {
    match v {
        ValueView::Int32(x) => if d.bitmask == 0xFFFF_FFFF {
            Ok((u32_bytes(Endian::Big, unsigned32(x)), Seq::empty()))
        } else if d.shift_amount >= 32 {
            Err(BcsvError::ShiftTooLarge(d.shift_amount))
        } else {
            Ok((u32_bytes(Endian::Big, packed(unsigned32(x), bits_of(d), 32)), Seq::empty()))
        },
        ValueView::Float(x) => Ok((u32_bytes(Endian::Big, x), Seq::empty())),
        ValueView::UInt32(x) => Ok((u32_bytes(Endian::Big, x), Seq::empty())),
        ValueView::Int16(x) => Ok((u16_bytes(Endian::Big, unsigned16(x)), Seq::empty())),
        ValueView::Byte(x) => Ok((seq![x], Seq::empty())),
        ValueView::String(s) => if pool_len > 0xFFFF_FFFF {
            Err(BcsvError::TooLarge)
        } else {
            Ok((u32_bytes(Endian::Big, pool_len as u32), shift_jis_encoded(s).0.push(0u8)))
        },
        _ => Ok((Seq::empty(), Seq::empty())),
    }
}

/// The rows and the pool after the first `c` cells of a row were written
/// behind `acc`.
pub open spec fn cells_written(
    fields: Seq<BcsvFieldDefinition>,
    values: Seq<ValueView>,
    c: int,
    acc: (Seq<u8>, Seq<u8>),
) -> BcsvResult<(Seq<u8>, Seq<u8>)>
    decreases c,
{
    if c <= 0 {
        Ok(acc)
    } else {
        match cells_written(fields, values, c - 1, acc) {
            Err(x) => Err(x),
            Ok(mid) => match cell_written(values[c - 1], fields[c - 1], mid.1.len() as int) {
                Err(x) => Err(x),
                Ok((bytes, text)) => Ok((mid.0 + bytes, mid.1 + text)),
            },
        }
    }
}

proof fn lemma_cells_fail(
    row: Seq<u8>,
    fields: Seq<BcsvFieldDefinition>,
    strings: Seq<u8>,
    c: int,
    n: int,
    x: BcsvError,
)
    requires
        0 < c <= n,
        cells_at(row, fields, strings, c) == Err::<Seq<ValueView>, BcsvError>(x),
    ensures
        cells_at(row, fields, strings, n) == Err::<Seq<ValueView>, BcsvError>(x),
    decreases n - c,
{
    if c < n {
        lemma_cells_fail(row, fields, strings, c + 1, n, x);
    }
}

proof fn lemma_cells_write_fail(
    fields: Seq<BcsvFieldDefinition>,
    values: Seq<ValueView>,
    c: int,
    n: int,
    acc: (Seq<u8>, Seq<u8>),
    x: BcsvError,
)
    requires
        0 < c <= n,
        cells_written(fields, values, c, acc) == Err::<(Seq<u8>, Seq<u8>), BcsvError>(x),
    ensures
        cells_written(fields, values, n, acc) == Err::<(Seq<u8>, Seq<u8>), BcsvError>(x),
    decreases n - c,
{
    if c < n {
        lemma_cells_write_fail(fields, values, c + 1, n, acc, x);
    }
}

/// Reads one cell of a row.
fn read_cell(row: &[u8], d: &BcsvFieldDefinition, strings: &[u8]) -> (r: BcsvResult<DataValue>)
    ensures
        match r {
            Ok(v) => cell_at(row@, *d, strings@) == Ok::<ValueView, BcsvError>(v@) && type_of_value(v)
                == d.data_type,
            Err(x) => cell_at(row@, *d, strings@) == Err::<ValueView, BcsvError>(x),
        },
{
    let pos: usize = d.entry_offset as usize;
    let len: usize = row.len();
    if matches!(d.data_type, DataType::Int32) && d.shift_amount >= 32 {
        return Err(BcsvError::ShiftTooLarge(d.shift_amount));
    }
    if !matches!(d.data_type, DataType::InlineString) && (pos > len || d.data_type.size() > len - pos) {
        return Err(BcsvError::UnexpectedEnd);
    }
    match d.data_type {
        DataType::Int32 => {
            let stored: u32 = get_u32(Endian::Big, row, pos);
            let bits = ColumnDefinition {
                name: 0,
                bitmask: d.bitmask,
                offset: 0,
                shift: d.shift_amount,
                ty: crate::bcsv::data::DataType::Int32,
            };
            Ok(DataValue::Int32(to_signed32(unpack(stored, &bits, 32))))
        },
        DataType::InlineString => Ok(DataValue::InlineString(String::new())),
        DataType::Float => Ok(DataValue::Float(get_u32(Endian::Big, row, pos))),
        DataType::UInt32 => Ok(DataValue::UInt32(get_u32(Endian::Big, row, pos))),
        DataType::Int16 => Ok(DataValue::Int16(to_signed16(get_u16(Endian::Big, row, pos)))),
        DataType::Byte => Ok(DataValue::Byte(row[pos])),
        DataType::String => {
            let at: u32 = get_u32(Endian::Big, row, pos);
            if at as u64 > strings.len() as u64 {
                return Err(BcsvError::UnexpectedEnd);
            }
            let end: usize = find_nul(strings, at as usize);
            if end >= strings.len() {
                return Err(BcsvError::UnexpectedEnd);
            }
            Ok(DataValue::String(decode_shift_jis(vstd::slice::slice_subrange(strings, at as usize, end))))
        },
        DataType::Null => Ok(DataValue::Null),
    }
}

/// Appends the bytes of one cell to `out`, and a text to the pool.
fn write_cell(value: &DataValue, d: &BcsvFieldDefinition, out: &mut Vec<u8>, strings: &mut StringWriter) -> (r:
    BcsvResult<()>)
    ensures
        match cell_written(value@, *d, old(strings)@.len() as int) {
            Ok((bytes, text)) => r.is_ok() && final(out)@ == old(out)@ + bytes && final(strings)@ == old(
                strings,
            )@ + text,
            Err(x) => r == Err::<(), BcsvError>(x) && final(out)@ == old(out)@ && final(strings)@ == old(
                strings,
            )@,
        },
{
    reveal(cell_written);
    let ghost out0 = out@;
    let ghost pool0 = strings@;
    match value {
        DataValue::Int32(x) => {
            if d.bitmask != 0xFFFF_FFFF {
                if d.shift_amount >= 32 {
                    return Err(BcsvError::ShiftTooLarge(d.shift_amount));
                }
                let bits = ColumnDefinition {
                    name: 0,
                    bitmask: d.bitmask,
                    offset: 0,
                    shift: d.shift_amount,
                    ty: crate::bcsv::data::DataType::Int32,
                };
                put_u32(Endian::Big, out, pack(to_unsigned32(*x), &bits, 32));
            } else {
                put_u32(Endian::Big, out, to_unsigned32(*x));
            }
        },
        DataValue::Float(x) => {
            put_u32(Endian::Big, out, *x);
        },
        DataValue::UInt32(x) => {
            put_u32(Endian::Big, out, *x);
        },
        DataValue::Int16(x) => {
            put_u16(Endian::Big, out, to_unsigned16(*x));
        },
        DataValue::Byte(x) => {
            put_u8(out, *x);
        },
        DataValue::String(x) => {
            if strings.0.len() > 0xFFFF_FFFF {
                return Err(BcsvError::TooLarge);
            }
            let offset: usize = strings.write_str(x.as_str());
            put_u32(Endian::Big, out, offset as u32);
        },
        _ => {},
    }
    proof {
        match cell_written(value@, *d, pool0.len() as int) {
            Ok((bytes, text)) => {
                assert(out@ =~= out0 + bytes);
                assert(strings@ =~= pool0 + text);
            },
            Err(_) => {},
        }
    }
    Ok(())
}

impl BcsvRow {
    /// Reads a row from its bytes: one value for every column.
    pub fn read(buffer: &[u8], fields: &Vec<BcsvFieldDefinition>, strings: &[u8]) -> (r: BcsvResult<BcsvRow>)
        ensures
            match r {
                Ok(row) => cells_at(buffer@, fields@, strings@, fields@.len() as int) == Ok::<
                    Seq<ValueView>,
                    BcsvError,
                >(values_view(row.0@)) && validated(fields@, row.0@).is_ok(),
                Err(x) => cells_at(buffer@, fields@, strings@, fields@.len() as int) == Err::<
                    Seq<ValueView>,
                    BcsvError,
                >(x),
            },
    {
        let n: usize = fields.len();
        let mut values: Vec<DataValue> = Vec::new();
        let mut c: usize = 0;
        assert(values_view(values@) =~= Seq::<ValueView>::empty());
        while c < n
            invariant
                c <= n,
                n == fields@.len(),
                values@.len() == c,
                cells_at(buffer@, fields@, strings@, c as int) == Ok::<Seq<ValueView>, BcsvError>(
                    values_view(values@),
                ),
                forall|k: int| 0 <= k < c ==> (#[trigger] fields@[k]).data_type == type_of_value(values@[k]),
            decreases n - c,
        {
            match read_cell(buffer, &fields[c], strings) {
                Ok(v) => {
                    let ghost before = values_view(values@);
                    values.push(v);
                    assert(values_view(values@) =~= before.push(v@));
                },
                Err(x) => {
                    proof {
                        lemma_cells_fail(buffer@, fields@, strings@, c + 1, n as int, x);
                    }
                    return Err(x);
                },
            }
            c += 1;
        }
        proof {
            lemma_no_mismatch(fields@, values@, 0);
        }
        Ok(BcsvRow(values))
    }

    /// Appends the bytes of the row's cells to `out`, and its texts to the
    /// pool. Only as many cells are written as there are columns.
    pub fn write(&self, out: &mut Vec<u8>, fields: &Vec<BcsvFieldDefinition>, strings: &mut StringWriter) -> (r:
        BcsvResult<()>)
        requires
            self.0@.len() == fields@.len(),
        ensures
            match r {
                Ok(_) => cells_written(
                    fields@,
                    values_view(self.0@),
                    fields@.len() as int,
                    (old(out)@, old(strings)@),
                ) == Ok::<(Seq<u8>, Seq<u8>), BcsvError>((final(out)@, final(strings)@)),
                Err(x) => cells_written(
                    fields@,
                    values_view(self.0@),
                    fields@.len() as int,
                    (old(out)@, old(strings)@),
                ) == Err::<(Seq<u8>, Seq<u8>), BcsvError>(x),
            },
    {
        let columns: usize = fields.len();
        let ghost start = (out@, strings@);
        let ghost values = values_view(self.0@);
        let mut q: usize = 0;
        while q < columns
            invariant
                q <= columns,
                columns == fields@.len(),
                columns == self.0@.len(),
                values == values_view(self.0@),
                start == (old(out)@, old(strings)@),
                cells_written(fields@, values, q as int, start) == Ok::<(Seq<u8>, Seq<u8>), BcsvError>(
                    (out@, strings@),
                ),
            decreases columns - q,
        {
            assert(values[q as int] == self.0@[q as int]@);
            match write_cell(&self.0[q], &fields[q], out, strings) {
                Ok(_) => {},
                Err(x) => {
                    proof {
                        assert(cell_written(values[q as int], fields@[q as int], strings@.len() as int)
                            == Err::<(Seq<u8>, Seq<u8>), BcsvError>(x));
                        lemma_cells_write_fail(fields@, values, q + 1, columns as int, start, x);
                    }
                    return Err(x);
                },
            }
            q += 1;
        }
        Ok(())
    }

    /// Checks the row against the columns: it has to have one value for
    /// each, of the column's type.
    pub fn validate(&self, fields: &Vec<BcsvFieldDefinition>) -> (r: BcsvResult<()>)
        ensures
            r == validated(fields@, self.0@),
    {
        let n: usize = fields.len();
        if self.0.len() != n {
            return Err(BcsvError::InvalidRowLength { expected: n, actual: self.0.len() });
        }
        let mut c: usize = 0;
        while c < n
            invariant
                c <= n,
                n == fields@.len(),
                n == self.0@.len(),
                first_mismatch(fields@, self.0@, 0) == first_mismatch(fields@, self.0@, c as int),
            decreases n - c,
        {
            let actual: DataType = self.0[c].to_type();
            if fields[c].data_type != actual {
                return Err(
                    BcsvError::InvalidRowDataType { index: c, expected: fields[c].data_type, actual },
                );
            }
            c += 1;
        }
        Ok(())
    }
}

/// A row whose values all have the types of their columns has no mismatch.
proof fn lemma_no_mismatch(fields: Seq<BcsvFieldDefinition>, values: Seq<DataValue>, from: int)
    requires
        0 <= from <= fields.len(),
        values.len() == fields.len(),
        forall|k: int| 0 <= k < fields.len() ==> (#[trigger] fields[k]).data_type == type_of_value(values[k]),
    ensures
        first_mismatch(fields, values, from) == fields.len(),
    decreases fields.len() - from,
{
    if from < fields.len() {
        lemma_no_mismatch(fields, values, from + 1);
    }
}

impl BcsvTable {
    /// The rows of the table.
    pub open spec fn view(&self) -> Seq<Seq<DataValue>> {
        rows_view(self.0@)
    }

    /// Every row has one value for every column, of the column's type.
    pub open spec fn wf(&self) -> bool {
        forall|r: int| 0 <= r < self.0@.len() ==> validated(self.1@, (#[trigger] self.0@[r]).0@).is_ok()
    }

    /// A table without columns and rows.
    pub fn new() -> (r: BcsvTable)
        ensures
            r.wf(),
            r@.len() == 0,
            r.1@.len() == 0,
    {
        BcsvTable(Vec::new(), Vec::new())
    }

    /// Whether the table is well formed.
    pub fn is_valid(&self) -> (r: bool)
        ensures
            r == self.wf(),
    {
        let n: usize = self.0.len();
        let mut k: usize = 0;
        while k < n
            invariant
                k <= n,
                n == self.0@.len(),
                forall|q: int| 0 <= q < k ==> validated(self.1@, (#[trigger] self.0@[q]).0@).is_ok(),
            decreases n - k,
        {
            if self.0[k].validate(&self.1).is_err() {
                return false;
            }
            k += 1;
        }
        true
    }

    /// The number of rows.
    pub fn row_count(&self) -> (r: usize)
        ensures
            r == self@.len(),
    {
        self.0.len()
    }

    /// The number of columns.
    pub fn column_count(&self) -> (r: usize)
        ensures
            r == self.1@.len(),
    {
        self.1.len()
    }

    /// The value in a row and a column, if the table has both.
    pub fn get(&self, row: usize, column: usize) -> (r: Option<&DataValue>)
        ensures
            r.is_some() == (row < self@.len() && column < self@[row as int].len()),
            r.is_some() ==> *r.unwrap() == self@[row as int][column as int],
    {
        if row < self.0.len() && column < self.0[row].0.len() {
            Some(&self.0[row].0[column])
        } else {
            None
        }
    }

    /// A row, if the table has it.
    pub fn row(&self, idx: usize) -> (r: Option<&[DataValue]>)
        ensures
            r.is_some() == (idx < self@.len()),
            r.is_some() ==> r.unwrap()@ == self@[idx as int],
    {
        if idx < self.0.len() {
            Some(self.0[idx].0.as_slice())
        } else {
            None
        }
    }

    /// The hash of the name and the type of every column.
    pub fn definitions(&self) -> (r: Vec<(u32, DataType)>)
        ensures
            r@.len() == self.1@.len(),
            forall|k: int|
                0 <= k < self.1@.len() ==> #[trigger] r@[k] == (self.1@[k].name_hash, self.1@[k].data_type),
    {
        let n: usize = self.1.len();
        let mut result: Vec<(u32, DataType)> = Vec::new();
        let mut k: usize = 0;
        while k < n
            invariant
                k <= n,
                n == self.1@.len(),
                result@.len() == k,
                forall|q: int|
                    0 <= q < k ==> #[trigger] result@[q] == (self.1@[q].name_hash, self.1@[q].data_type),
            decreases n - k,
        {
            result.push((self.1[k].name_hash, self.1[k].data_type));
            k += 1;
        }
        result
    }

    /// The rows, from the first to the last.
    pub fn iter(&self) -> (r: Vec<&[DataValue]>)
        ensures
            r@.len() == self@.len(),
            forall|k: int| 0 <= k < self@.len() ==> (#[trigger] r@[k])@ == self@[k],
    {
        let n: usize = self.0.len();
        let mut result: Vec<&[DataValue]> = Vec::new();
        let mut k: usize = 0;
        while k < n
            invariant
                k <= n,
                n == self.0@.len(),
                result@.len() == k,
                forall|q: int| 0 <= q < k ==> (#[trigger] result@[q])@ == self@[q],
            decreases n - k,
        {
            result.push(self.0[k].0.as_slice());
            k += 1;
        }
        result
    }

    /// Appends a row, unless it does not fit the columns.
    pub fn push_row(&mut self, values: Vec<DataValue>) -> (r: BcsvResult<()>)
        requires
            old(self).wf(),
        ensures
            final(self).wf(),
            final(self).1@ == old(self).1@,
            r == validated(old(self).1@, values@),
            r.is_ok() ==> final(self)@ == old(self)@.push(values@),
            r.is_err() ==> final(self)@ == old(self)@,
    {
        let row = BcsvRow(values);
        match row.validate(&self.1) {
            Err(e) => Err(e),
            Ok(_) => {
                self.0.push(row);
                assert(self@ =~= old(self)@.push(values@));
                Ok(())
            },
        }
    }

    /// Takes a row out of the table and returns its values, if the table
    /// has the row.
    pub fn remove_row(&mut self, idx: usize) -> (r: Option<Vec<DataValue>>)
        requires
            old(self).wf(),
        ensures
            final(self).wf(),
            final(self).1@ == old(self).1@,
            r.is_some() == (idx < old(self)@.len()),
            r.is_some() ==> r.unwrap()@ == old(self)@[idx as int] && final(self)@ == old(self)@.remove(
                idx as int,
            ),
            r.is_none() ==> final(self)@ == old(self)@,
    {
        if idx >= self.0.len() {
            return None;
        }
        let taken: BcsvRow = self.0.remove(idx);
        proof {
            assert(self@ =~= old(self)@.remove(idx as int));
            assert forall|q: int| 0 <= q < self.0@.len() implies validated(
                self.1@,
                (#[trigger] self.0@[q]).0@,
            ).is_ok() by {
                if q < idx {
                    assert(validated(old(self).1@, old(self).0@[q].0@).is_ok());
                } else {
                    assert(validated(old(self).1@, old(self).0@[q + 1].0@).is_ok());
                }
            }
        }
        Some(taken.0)
    }
}

impl Default for BcsvTable {
    fn default() -> (r: Self)
        ensures
            r.wf(),
            r@.len() == 0,
            r.1@.len() == 0,
    {
        BcsvTable::new()
    }
}

/// The definitions of the first `c` columns.
pub open spec fn fields_read(b: Seq<u8>, c: int) -> BcsvResult<Seq<BcsvFieldDefinition>>
    decreases c,
{
    if c <= 0 {
        Ok(Seq::empty())
    } else {
        match fields_read(b, c - 1) {
            Err(x) => Err(x),
            Ok(fields) => match field_at(b, 16 + 12 * (c - 1)) {
                Err(x) => Err(x),
                Ok(d) => Ok(fields.push(d)),
            },
        }
    }
}

/// The first `r` rows of a table: row `k` starts `k` times the width of a
/// row behind `start`.
pub open spec fn rows_read(
    b: Seq<u8>,
    fields: Seq<BcsvFieldDefinition>,
    strings: Seq<u8>,
    start: int,
    width: int,
    r: int,
) -> BcsvResult<Seq<Seq<ValueView>>>
    decreases r,
{
    if r <= 0 {
        Ok(Seq::empty())
    } else {
        match rows_read(b, fields, strings, start, width, r - 1) {
            Err(x) => Err(x),
            Ok(rows) => {
                let at = start + (r - 1) * width;
                if at > b.len() {
                    Err(BcsvError::UnexpectedEnd)
                } else {
                    match cells_at(b.subrange(at, b.len() as int), fields, strings, fields.len() as int) {
                        Err(x) => Err(x),
                        Ok(values) => Ok(rows.push(values)),
                    }
                }
            },
        }
    }
}

/// The columns and rows that a buffer holds as a table. The rows follow
/// the definitions; the pool of strings stands behind the header's data
/// offset and the rows.
pub open spec fn table_of(b: Seq<u8>) -> BcsvResult<(Seq<BcsvFieldDefinition>, Seq<Seq<ValueView>>)> {
    match header_of(b) {
        Err(x) => Err(x),
        Ok(h) => match fields_read(b, h.field_count as int) {
            Err(x) => Err(x),
            Ok(fields) => {
                let strings_at = h.data_offset + h.entry_count * h.entry_size;
                if strings_at > b.len() {
                    Err(BcsvError::UnexpectedEnd)
                } else {
                    match rows_read(
                        b,
                        fields,
                        b.subrange(strings_at, b.len() as int),
                        16 + 12 * h.field_count,
                        h.entry_size as int,
                        h.entry_count as int,
                    ) {
                        Err(x) => Err(x),
                        Ok(rows) => Ok((fields, rows)),
                    }
                }
            },
        },
    }
}

/// The rows of a table as the contracts see their values.
pub open spec fn table_view(rows: Seq<BcsvRow>) -> Seq<Seq<ValueView>> {
    Seq::new(rows.len(), |i: int| values_view(rows[i].0@))
}

/// The rows and the pool after the first `r` rows were written.
pub open spec fn rows_written(fields: Seq<BcsvFieldDefinition>, rows: Seq<Seq<ValueView>>, r: int) -> BcsvResult<
    (Seq<u8>, Seq<u8>),
>
    decreases r,
{
    if r <= 0 {
        Ok((Seq::empty(), Seq::empty()))
    } else {
        match rows_written(fields, rows, r - 1) {
            Err(x) => Err(x),
            Ok(mid) => cells_written(fields, rows[r - 1], fields.len() as int, mid),
        }
    }
}

/// The bytes of the definitions of the first `c` columns.
pub open spec fn fields_written(fields: Seq<BcsvFieldDefinition>, c: int) -> Seq<u8>
    decreases c,
{
    if c <= 0 {
        Seq::empty()
    } else {
        fields_written(fields, c - 1) + field_bytes(fields[c - 1])
    }
}

/// The width of a row: the widths of the first `c` columns together.
pub open spec fn row_width(fields: Seq<BcsvFieldDefinition>, c: int) -> int
    decreases c,
{
    if c <= 0 {
        0
    } else {
        row_width(fields, c - 1) + size_of(fields[c - 1].data_type)
    }
}

/// The bytes that a table is written as, or why it cannot be written: the
/// header, the definitions, the rows, and the pool of strings.
pub open spec fn table_written(fields: Seq<BcsvFieldDefinition>, rows: Seq<Seq<ValueView>>) -> BcsvResult<
    Seq<u8>,
> {
    if rows.len() > 0xFFFF_FFFF || fields.len() > 0xFFFF {
        Err(BcsvError::TooLarge)
    } else {
        match rows_written(fields, rows, rows.len() as int) {
            Err(x) => Err(x),
            Ok((body, pool)) => Ok(
                header_bytes(
                    BcsvHeader {
                        entry_count: rows.len() as u32,
                        field_count: fields.len() as u32,
                        data_offset: (16 + 12 * fields.len()) as u32,
                        entry_size: row_width(fields, fields.len() as int) as u32,
                    },
                ) + fields_written(fields, fields.len() as int) + body + pool,
            ),
        }
    }
}

/// What appending a column answers.
pub open spec fn push_column_result(fields: Seq<BcsvFieldDefinition>, data_type: DataType, value: DataValue) -> BcsvResult<
    BcsvFieldDefinition,
> {
    let offset = if fields.len() == 0 {
        0
    } else {
        fields.last().entry_offset + size_of(fields.last().data_type)
    };
    if offset > 0xFFFF {
        Err(BcsvError::TooLarge)
    } else if type_of_value(value) != data_type {
        Err(
            BcsvError::InvalidRowDataType {
                index: fields.len() as usize,
                expected: data_type,
                actual: type_of_value(value),
            },
        )
    } else {
        Ok(
            BcsvFieldDefinition {
                name_hash: 0,
                bitmask: 0xFFFF_FFFF,
                entry_offset: offset as u16,
                shift_amount: 0,
                data_type,
            },
        )
    }
}

proof fn lemma_fields_fail(b: Seq<u8>, c: int, n: int, x: BcsvError)
    requires
        0 < c <= n,
        fields_read(b, c) == Err::<Seq<BcsvFieldDefinition>, BcsvError>(x),
    ensures
        fields_read(b, n) == Err::<Seq<BcsvFieldDefinition>, BcsvError>(x),
    decreases n - c,
{
    if c < n {
        lemma_fields_fail(b, c + 1, n, x);
    }
}

proof fn lemma_rows_fail(
    b: Seq<u8>,
    fields: Seq<BcsvFieldDefinition>,
    strings: Seq<u8>,
    start: int,
    width: int,
    r: int,
    n: int,
    x: BcsvError,
)
    requires
        0 < r <= n,
        rows_read(b, fields, strings, start, width, r) == Err::<Seq<Seq<ValueView>>, BcsvError>(x),
    ensures
        rows_read(b, fields, strings, start, width, n) == Err::<Seq<Seq<ValueView>>, BcsvError>(x),
    decreases n - r,
{
    if r < n {
        lemma_rows_fail(b, fields, strings, start, width, r + 1, n, x);
    }
}

proof fn lemma_rows_write_fail(
    fields: Seq<BcsvFieldDefinition>,
    rows: Seq<Seq<ValueView>>,
    r: int,
    n: int,
    x: BcsvError,
)
    requires
        0 < r <= n,
        rows_written(fields, rows, r) == Err::<(Seq<u8>, Seq<u8>), BcsvError>(x),
    ensures
        rows_written(fields, rows, n) == Err::<(Seq<u8>, Seq<u8>), BcsvError>(x),
    decreases n - r,
{
    if r < n {
        lemma_rows_write_fail(fields, rows, r + 1, n, x);
    }
}

/// Reads the definitions of `count` columns.
fn read_fields(buffer: &[u8], count: u32) -> (r: BcsvResult<Vec<BcsvFieldDefinition>>)
    ensures
        match r {
            Ok(v) => fields_read(buffer@, count as int) == Ok::<Seq<BcsvFieldDefinition>, BcsvError>(v@)
                && v@.len() == count,
            Err(x) => fields_read(buffer@, count as int) == Err::<Seq<BcsvFieldDefinition>, BcsvError>(x),
        },
{
    let len: usize = buffer.len();
    let mut fields: Vec<BcsvFieldDefinition> = Vec::new();
    let mut c: u32 = 0;
    while c < count
        invariant
            c <= count,
            len == buffer@.len(),
            fields@.len() == c,
            fields_read(buffer@, c as int) == Ok::<Seq<BcsvFieldDefinition>, BcsvError>(fields@),
        decreases count - c,
    {
        let at: u64 = 16 + 12 * (c as u64);
        if at > len as u64 {
            proof {
                lemma_fields_fail(buffer@, c + 1, count as int, BcsvError::UnexpectedEnd);
            }
            return Err(BcsvError::UnexpectedEnd);
        }
        match BcsvFieldDefinition::read(buffer, at as usize) {
            Ok(d) => {
                fields.push(d);
            },
            Err(x) => {
                proof {
                    lemma_fields_fail(buffer@, c + 1, count as int, x);
                }
                return Err(x);
            },
        }
        c += 1;
    }
    Ok(fields)
}

impl BcsvTable {
    /// Reads a table.
    pub fn read(buffer: &[u8]) -> (r: BcsvResult<BcsvTable>)
        ensures
            match r {
                Ok(t) => table_of(buffer@) == Ok::<
                    (Seq<BcsvFieldDefinition>, Seq<Seq<ValueView>>),
                    BcsvError,
                >((t.1@, table_view(t.0@))) && t.wf(),
                Err(x) => table_of(buffer@) == Err::<
                    (Seq<BcsvFieldDefinition>, Seq<Seq<ValueView>>),
                    BcsvError,
                >(x),
            },
    {
        let len: usize = buffer.len();
        let header: BcsvHeader = BcsvHeader::read(buffer)?;
        let fields: Vec<BcsvFieldDefinition> = read_fields(buffer, header.field_count)?;
        assert(header.entry_count * header.entry_size <= 0xFFFF_FFFF * 0xFFFF_FFFF) by (nonlinear_arith)
            requires
                0 <= header.entry_count <= 0xFFFF_FFFF,
                0 <= header.entry_size <= 0xFFFF_FFFF,
        ;
        let strings_at: u128 = header.data_offset as u128 + (header.entry_count as u128) * (
        header.entry_size as u128);
        if strings_at > len as u128 {
            return Err(BcsvError::UnexpectedEnd);
        }
        let strings: &[u8] = vstd::slice::slice_subrange(buffer, strings_at as usize, len);
        let start: u128 = 16 + 12 * (header.field_count as u128);
        let mut rows: Vec<BcsvRow> = Vec::new();
        let mut at: u128 = start;
        let mut k: u32 = 0;
        assert(table_view(rows@) =~= Seq::<Seq<ValueView>>::empty());
        while k < header.entry_count
            invariant
                k <= header.entry_count,
                len == buffer@.len(),
                header_of(buffer@) == Ok::<BcsvHeader, BcsvError>(header),
                fields_read(buffer@, header.field_count as int) == Ok::<
                    Seq<BcsvFieldDefinition>,
                    BcsvError,
                >(fields@),
                strings_at == header.data_offset + header.entry_count * header.entry_size,
                strings_at <= len,
                strings@ == buffer@.subrange(strings_at as int, len as int),
                start == 16 + 12 * header.field_count,
                at == start + k * header.entry_size,
                at <= start + 0xFFFF_FFFF * 0xFFFF_FFFF,
                rows@.len() == k,
                rows_read(
                    buffer@,
                    fields@,
                    strings@,
                    start as int,
                    header.entry_size as int,
                    k as int,
                ) == Ok::<Seq<Seq<ValueView>>, BcsvError>(table_view(rows@)),
                forall|q: int| 0 <= q < k ==> validated(fields@, (#[trigger] rows@[q]).0@).is_ok(),
            decreases header.entry_count - k,
        {
            if at > len as u128 {
                proof {
                    lemma_rows_fail(
                        buffer@,
                        fields@,
                        strings@,
                        start as int,
                        header.entry_size as int,
                        k + 1,
                        header.entry_count as int,
                        BcsvError::UnexpectedEnd,
                    );
                }
                return Err(BcsvError::UnexpectedEnd);
            }
            let bytes: &[u8] = vstd::slice::slice_subrange(buffer, at as usize, len);
            match BcsvRow::read(bytes, &fields, strings) {
                Ok(row) => {
                    let ghost before = table_view(rows@);
                    let ghost values = values_view(row.0@);
                    rows.push(row);
                    assert(table_view(rows@) =~= before.push(values));
                },
                Err(x) => {
                    proof {
                        lemma_rows_fail(
                            buffer@,
                            fields@,
                            strings@,
                            start as int,
                            header.entry_size as int,
                            k + 1,
                            header.entry_count as int,
                            x,
                        );
                    }
                    return Err(x);
                },
            }
            proof {
                assert((k + 1) * header.entry_size == k * header.entry_size + header.entry_size)
                    by (nonlinear_arith);
                assert((k + 1) * header.entry_size <= 0xFFFF_FFFF * 0xFFFF_FFFF) by (nonlinear_arith)
                    requires
                        0 <= k + 1 <= 0xFFFF_FFFF,
                        0 <= header.entry_size <= 0xFFFF_FFFF,
                ;
            }
            at = at + header.entry_size as u128;
            k += 1;
        }
        Ok(BcsvTable(rows, fields))
    }

    /// The bytes of the table.
    pub fn save(&self) -> (r: BcsvResult<Vec<u8>>)
        requires
            self.wf(),
        ensures
            match r {
                Ok(v) => table_written(self.1@, table_view(self.0@)) == Ok::<Seq<u8>, BcsvError>(v@),
                Err(x) => table_written(self.1@, table_view(self.0@)) == Err::<Seq<u8>, BcsvError>(x),
            },
    {
        let columns: usize = self.1.len();
        let count: usize = self.0.len();
        let ghost view = table_view(self.0@);
        if count > 0xFFFF_FFFF || columns > 0xFFFF {
            return Err(BcsvError::TooLarge);
        }
        let mut width: u32 = 0;
        let mut definitions: Vec<u8> = Vec::new();
        let mut c: usize = 0;
        while c < columns
            invariant
                c <= columns,
                columns == self.1@.len(),
                columns <= 0xFFFF,
                width == row_width(self.1@, c as int),
                width <= 32 * c,
                definitions@ == fields_written(self.1@, c as int),
            decreases columns - c,
        {
            width = width + self.1[c].data_type.size() as u32;
            self.1[c].write(&mut definitions);
            c += 1;
        }
        let mut body: Vec<u8> = Vec::new();
        let mut strings = StringWriter::new();
        let mut k: usize = 0;
        while k < count
            invariant
                k <= count,
                count == self.0@.len(),
                count <= 0xFFFF_FFFF,
                columns == self.1@.len(),
                columns <= 0xFFFF,
                self.wf(),
                view == table_view(self.0@),
                rows_written(self.1@, view, k as int) == Ok::<(Seq<u8>, Seq<u8>), BcsvError>(
                    (body@, strings@),
                ),
            decreases count - k,
        {
            assert(validated(self.1@, self.0@[k as int].0@).is_ok());
            assert(view[k as int] == values_view(self.0@[k as int].0@));
            match self.0[k].write(&mut body, &self.1, &mut strings) {
                Ok(_) => {},
                Err(x) => {
                    proof {
                        lemma_rows_write_fail(self.1@, view, k + 1, count as int, x);
                    }
                    return Err(x);
                },
            }
            k += 1;
        }
        let header = BcsvHeader {
            entry_count: count as u32,
            field_count: columns as u32,
            data_offset: (16 + 12 * columns) as u32,
            entry_size: width,
        };
        let mut out: Vec<u8> = Vec::new();
        header.write(&mut out);
        put_slice(&mut out, definitions.as_slice());
        put_slice(&mut out, body.as_slice());
        let pool: Vec<u8> = strings.finish();
        put_slice(&mut out, pool.as_slice());
        Ok(out)
    }

    /// The values of a column, from the first row to the last, if the
    /// table has the column.
    pub fn column(&self, idx: usize) -> (r: Option<Vec<&DataValue>>)
        requires
            self.wf(),
        ensures
            r.is_some() == (idx < self.1@.len()),
            r.is_some() ==> r.unwrap()@.len() == self@.len() && forall|k: int|
                0 <= k < self@.len() ==> *(#[trigger] r.unwrap()@[k]) == self@[k][idx as int],
    {
        if idx >= self.1.len() {
            return None;
        }
        let n: usize = self.0.len();
        let mut result: Vec<&DataValue> = Vec::new();
        let mut k: usize = 0;
        while k < n
            invariant
                k <= n,
                n == self.0@.len(),
                self.wf(),
                idx < self.1@.len(),
                result@.len() == k,
                forall|q: int| 0 <= q < k ==> *(#[trigger] result@[q]) == self@[q][idx as int],
            decreases n - k,
        {
            assert(validated(self.1@, self.0@[k as int].0@).is_ok());
            result.push(&self.0[k].0[idx]);
            k += 1;
        }
        Some(result)
    }

    /// Appends a column whose cells all hold a copy of `default`. The
    /// column starts in a row where the last column ends; a column that
    /// would start behind byte 65535, and a value of another type than
    /// the column, are refused.
    pub fn push_column(&mut self, name_hash: u32, data_type: DataType, default: &DataValue) -> (r: BcsvResult<()>)
        requires
            old(self).wf(),
        ensures
            final(self).wf(),
            match push_column_result(old(self).1@, data_type, *default) {
                Err(x) => r == Err::<(), BcsvError>(x) && final(self)@ == old(self)@ && final(self).1@
                    == old(self).1@,
                Ok(d) => r.is_ok() && final(self).1@ == old(self).1@.push(
                    BcsvFieldDefinition { name_hash, ..d },
                ) && final(self)@.len() == old(self)@.len() && forall|k: int|
                    0 <= k < old(self)@.len() ==> #[trigger] final(self)@[k] == old(self)@[k].push(*default),
            },
    {
        let columns: usize = self.1.len();
        let offset: u32 = if columns == 0 {
            0
        } else {
            self.1[columns - 1].entry_offset as u32 + self.1[columns - 1].data_type.size() as u32
        };
        if offset > 0xFFFF {
            return Err(BcsvError::TooLarge);
        }
        let actual: DataType = default.to_type();
        if actual != data_type {
            return Err(BcsvError::InvalidRowDataType { index: columns, expected: data_type, actual });
        }
        let n: usize = self.0.len();
        let mut k: usize = 0;
        while k < n
            invariant
                k <= n,
                n == self.0@.len(),
                n == old(self).0@.len(),
                columns == old(self).1@.len(),
                self.1@ == old(self).1@,
                old(self).wf(),
                forall|q: int| 0 <= q < k ==> (#[trigger] self.0@[q]).0@ == old(self).0@[q].0@.push(*default),
                forall|q: int| k <= q < n ==> (#[trigger] self.0@[q]).0@ == old(self).0@[q].0@,
            decreases n - k,
        {
            let copy: DataValue = default.duplicate();
            let target: &mut BcsvRow = &mut self.0[k];
            target.0.push(copy);
            k += 1;
        }
        self.1.push(
            BcsvFieldDefinition {
                name_hash,
                bitmask: 0xFFFF_FFFF,
                entry_offset: offset as u16,
                shift_amount: 0,
                data_type,
            },
        );
        proof {
            assert forall|q: int| 0 <= q < self.0@.len() implies validated(
                self.1@,
                (#[trigger] self.0@[q]).0@,
            ).is_ok() by {
                let old_fields = old(self).1@;
                let old_values = old(self).0@[q].0@;
                assert(validated(old_fields, old_values).is_ok());
                lemma_fits(old_fields, old_values, 0);
                assert forall|c: int| 0 <= c < self.1@.len() implies (#[trigger] self.1@[c]).data_type
                    == type_of_value(self.0@[q].0@[c]) by {
                    if c < columns {
                        assert(old_fields[c].data_type == type_of_value(old_values[c]));
                    }
                }
                lemma_no_mismatch(self.1@, self.0@[q].0@, 0);
            }
        }
        Ok(())
    }

    /// Takes a column out of the table, if the table has it.
    pub fn remove_column(&mut self, idx: usize)
        requires
            old(self).wf(),
        ensures
            final(self).wf(),
            idx >= old(self).1@.len() ==> final(self)@ == old(self)@ && final(self).1@ == old(self).1@,
            idx < old(self).1@.len() ==> final(self).1@ == old(self).1@.remove(idx as int)
                && final(self)@.len() == old(self)@.len() && forall|k: int|
                0 <= k < old(self)@.len() ==> #[trigger] final(self)@[k] == old(self)@[k].remove(idx as int),
    {
        let columns: usize = self.1.len();
        if idx >= columns {
            return ;
        }
        let n: usize = self.0.len();
        let mut k: usize = 0;
        while k < n
            invariant
                k <= n,
                n == self.0@.len(),
                n == old(self).0@.len(),
                columns == old(self).1@.len(),
                idx < columns,
                self.1@ == old(self).1@,
                old(self).wf(),
                forall|q: int|
                    0 <= q < k ==> (#[trigger] self.0@[q]).0@ == old(self).0@[q].0@.remove(idx as int),
                forall|q: int| k <= q < n ==> (#[trigger] self.0@[q]).0@ == old(self).0@[q].0@,
            decreases n - k,
        {
            assert(validated(old(self).1@, old(self).0@[k as int].0@).is_ok());
            let target: &mut BcsvRow = &mut self.0[k];
            let _taken: DataValue = target.0.remove(idx);
            k += 1;
        }
        self.1.remove(idx);
        proof {
            assert forall|q: int| 0 <= q < self.0@.len() implies validated(
                self.1@,
                (#[trigger] self.0@[q]).0@,
            ).is_ok() by {
                let old_fields = old(self).1@;
                let old_values = old(self).0@[q].0@;
                assert(validated(old_fields, old_values).is_ok());
                lemma_fits(old_fields, old_values, 0);
                assert forall|c: int| 0 <= c < self.1@.len() implies (#[trigger] self.1@[c]).data_type
                    == type_of_value(self.0@[q].0@[c]) by {
                    if c < idx {
                        assert(old_fields[c].data_type == type_of_value(old_values[c]));
                    } else {
                        assert(old_fields[c + 1].data_type == type_of_value(old_values[c + 1]));
                    }
                }
                lemma_no_mismatch(self.1@, self.0@[q].0@, 0);
            }
        }
    }
}

/// A row without a mismatch from `from` on has the types of its columns
/// from there on.
proof fn lemma_fits(fields: Seq<BcsvFieldDefinition>, values: Seq<DataValue>, from: int)
    requires
        0 <= from <= fields.len(),
        values.len() == fields.len(),
        !(first_mismatch(fields, values, from) < fields.len()),
    ensures
        forall|k: int| from <= k < fields.len() ==> (#[trigger] fields[k]).data_type == type_of_value(values[k]),
    decreases fields.len() - from,
{
    if from < fields.len() {
        lemma_fits(fields, values, from + 1);
    }
}

} // verus!
