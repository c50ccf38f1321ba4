//! A table of typed columns that can be changed row by row and column by
//! column.

use crate::bcsv::data::DataType;
use crate::bcsv::definition::ColumnDefinition;
use crate::bcsv::error::{BcsvError, BcsvResult};
use crate::bcsv::value::{type_of_value, DataValue};
use vstd::prelude::*;

verus! {

/// The most columns that a table can have.
pub const MAX_COLUMNS: usize = 0xFFFF;

/// A table: the definitions of its columns, and its rows, each with one
/// value for every column.
pub struct Table {
    pub fields: Vec<ColumnDefinition>,
    pub rows: Vec<Vec<DataValue>>,
}

/// The rows as the contracts see them.
pub open spec fn rows_view(rows: Seq<Vec<DataValue>>) -> Seq<Seq<DataValue>> {
    Seq::new(rows.len(), |i: int| rows[i]@)
}

/// The first column in which a row has a value of another type than the
/// column, or the number of columns where there is none.
pub open spec fn first_mismatch(fields: Seq<ColumnDefinition>, values: Seq<DataValue>, from: int) -> int
    decreases fields.len() - from,
{
    if from < 0 || from >= fields.len() || from >= values.len() {
        fields.len() as int
    } else if fields[from].ty != type_of_value(values[from]) {
        from
    } else {
        first_mismatch(fields, values, from + 1)
    }
}

/// A row fits the columns: it has one value for each, of the column's type.
pub open spec fn row_fits(fields: Seq<ColumnDefinition>, values: Seq<DataValue>) -> bool {
    &&& values.len() == fields.len()
    &&& forall|c: int| 0 <= c < fields.len() ==> (#[trigger] fields[c]).ty == type_of_value(values[c])
}

/// What pushing a row onto a table with these columns answers.
pub open spec fn push_row_result(fields: Seq<ColumnDefinition>, values: Seq<DataValue>) -> BcsvResult<()> {
    if values.len() != fields.len() {
        Err(BcsvError::InvaildRowLength { expected: fields.len() as usize, actual: values.len() as usize })
    } else if first_mismatch(fields, values, 0) < fields.len() {
        let c = first_mismatch(fields, values, 0);
        Err(
            BcsvError::InvaildRowType {
                column: c as usize,
                expected: fields[c].ty,
                actual: type_of_value(values[c]),
            },
        )
    } else {
        Ok(())
    }
}

/// The definition of a new last column.
pub open spec fn new_column(name: u32, ty: DataType, index: int) -> ColumnDefinition {
    ColumnDefinition { name, bitmask: 0xFFFF_FFFF, offset: index as u16, shift: 0, ty }
}

impl Table {
    /// The rows of the table.
    pub open spec fn view(&self) -> Seq<Seq<DataValue>> {
        rows_view(self.rows@)
    }

    /// Every row fits the columns, there are at most 65535 columns, and a
    /// table without columns has no rows.
    pub open spec fn wf(&self) -> bool {
        &&& self.fields@.len() <= MAX_COLUMNS
        &&& self.fields@.len() == 0 ==> self.rows@.len() == 0
        &&& forall|r: int| 0 <= r < self.rows@.len() ==> row_fits(self.fields@, #[trigger] self.rows@[r]@)
    }

    /// A table without columns and rows.
    pub fn new() -> (r: Table)
        ensures
            r.wf(),
            r.fields@.len() == 0,
            r@.len() == 0,
    {
        Table { fields: Vec::new(), rows: Vec::new() }
    }

    /// The number of rows.
    pub fn row_count(&self) -> (r: usize)
        ensures
            r == self@.len(),
    {
        self.rows.len()
    }

    /// The number of columns.
    pub fn column_count(&self) -> (r: usize)
        ensures
            r == self.fields@.len(),
    {
        self.fields.len()
    }

    /// The definitions of the columns.
    pub fn definitions(&self) -> (r: &[ColumnDefinition])
        ensures
            r@ == self.fields@,
    {
        self.fields.as_slice()
    }

    /// What pushing a row would answer.
    pub fn check_row(&self, values: &Vec<DataValue>) -> (r: BcsvResult<()>)
        ensures
            r == push_row_result(self.fields@, values@),
            r.is_ok() == row_fits(self.fields@, values@),
    {
        let n: usize = self.fields.len();
        if values.len() != n {
            return Err(BcsvError::InvaildRowLength { expected: n, actual: values.len() });
        }
        let mut c: usize = 0;
        while c < n
            invariant
                c <= n,
                n == self.fields@.len(),
                n == values@.len(),
                first_mismatch(self.fields@, values@, 0) == first_mismatch(self.fields@, values@, c as int),
                forall|k: int|
                    0 <= k < c ==> (#[trigger] self.fields@[k]).ty == type_of_value(values@[k]),
            decreases n - c,
        {
            let actual: DataType = values[c].ty();
            if self.fields[c].ty != actual {
                return Err(
                    BcsvError::InvaildRowType { column: c, expected: self.fields[c].ty, actual },
                );
            }
            c += 1;
        }
        Ok(())
    }

    /// Whether the table is well formed.
    pub fn is_valid(&self) -> (r: bool)
        ensures
            r == self.wf(),
    {
        let n: usize = self.rows.len();
        if self.fields.len() > MAX_COLUMNS || (self.fields.len() == 0 && n > 0) {
            return false;
        }
        let mut k: usize = 0;
        while k < n
            invariant
                k <= n,
                n == self.rows@.len(),
                forall|q: int| 0 <= q < k ==> row_fits(self.fields@, #[trigger] self.rows@[q]@),
            decreases n - k,
        {
            if self.check_row(&self.rows[k]).is_err() {
                return false;
            }
            k += 1;
        }
        true
    }

    /// Appends a row. The values are moved out of `values` where the row
    /// fits; a row of another length than the table has columns, or with a
    /// value of another type than its column, is refused, and `values` and
    /// the table stay as they were. A row for a table without columns has
    /// no values and adds nothing.
    pub fn push_row(&mut self, values: &mut Vec<DataValue>) -> (r: BcsvResult<()>)
        requires
            old(self).wf(),
        ensures
            final(self).wf(),
            r == push_row_result(old(self).fields@, old(values)@),
            final(self).fields@ == old(self).fields@,
            r.is_err() ==> final(self)@ == old(self)@ && final(values)@ == old(values)@,
            r.is_ok() ==> final(values)@.len() == 0 && final(self)@ == if old(self).fields@.len() == 0 {
                old(self)@
            } else {
                old(self)@.push(old(values)@)
            },
    {
        match self.check_row(values) {
            Err(e) => Err(e),
            Ok(_) => {
                let mut row: Vec<DataValue> = Vec::new();
                row.append(values);
                if self.fields.len() > 0 {
                    self.rows.push(row);
                    assert(self@ =~= old(self)@.push(old(values)@));
                }
                Ok(())
            },
        }
    }

    /// The value in a row and a column, if the table has both.
    pub fn get(&self, row: usize, column: usize) -> (r: Option<&DataValue>)
        ensures
            r.is_some() == (row < self@.len() && column < self@[row as int].len()),
            r.is_some() ==> *r.unwrap() == self@[row as int][column as int],
    {
        if row < self.rows.len() && column < self.rows[row].len() {
            Some(&self.rows[row][column])
        } else {
            None
        }
    }

    /// A row, if the table has it.
    pub fn row(&self, row: usize) -> (r: Option<&[DataValue]>)
        ensures
            r.is_some() == (row < self@.len()),
            r.is_some() ==> r.unwrap()@ == self@[row as int],
    {
        if row < self.rows.len() {
            Some(self.rows[row].as_slice())
        } else {
            None
        }
    }

    /// The values of a column, from the first row to the last, if the
    /// table has the column.
    pub fn column(&self, column: usize) -> (r: Option<Vec<&DataValue>>)
        requires
            self.wf(),
        ensures
            r.is_some() == (column < self.fields@.len()),
            r.is_some() ==> r.unwrap()@.len() == self@.len() && forall|k: int|
                0 <= k < self@.len() ==> *(#[trigger] r.unwrap()@[k]) == self@[k][column as int],
    {
        if column >= self.fields.len() {
            return None;
        }
        let n: usize = self.rows.len();
        let mut result: Vec<&DataValue> = Vec::new();
        let mut k: usize = 0;
        while k < n
            invariant
                k <= n,
                n == self.rows@.len(),
                self.wf(),
                column < self.fields@.len(),
                result@.len() == k,
                forall|q: int| 0 <= q < k ==> *(#[trigger] result@[q]) == self@[q][column as int],
            decreases n - k,
        {
            assert(row_fits(self.fields@, self.rows@[k as int]@));
            result.push(&self.rows[k][column]);
            k += 1;
        }
        Some(result)
    }

    /// The rows, from the first to the last.
    pub fn iter(&self) -> (r: Vec<&[DataValue]>)
        ensures
            r@.len() == self@.len(),
            forall|k: int| 0 <= k < self@.len() ==> (#[trigger] r@[k])@ == self@[k],
    {
        let n: usize = self.rows.len();
        let mut result: Vec<&[DataValue]> = Vec::new();
        let mut k: usize = 0;
        while k < n
            invariant
                k <= n,
                n == self.rows@.len(),
                result@.len() == k,
                forall|q: int| 0 <= q < k ==> (#[trigger] result@[q])@ == self@[q],
            decreases n - k,
        {
            result.push(self.rows[k].as_slice());
            k += 1;
        }
        result
    }

    /// Puts a value into a cell, in place of what stood there. A cell that
    /// the table does not have, and a value of another type than the
    /// column, are refused.
    pub fn set(&mut self, row: usize, column: usize, value: DataValue) -> (r: bool)
        requires
            old(self).wf(),
        ensures
            final(self).wf(),
            final(self).fields@ == old(self).fields@,
            r == (row < old(self)@.len() && column < old(self).fields@.len() && old(
                self,
            ).fields@[column as int].ty == type_of_value(value)),
            r ==> final(self)@ == old(self)@.update(
                row as int,
                old(self)@[row as int].update(column as int, value),
            ),
            !r ==> final(self)@ == old(self)@,
    {
        if row >= self.rows.len() || column >= self.fields.len() {
            return false;
        }
        if self.fields[column].ty != value.ty() {
            return false;
        }
        assert(row_fits(self.fields@, self.rows@[row as int]@));
        let target: &mut Vec<DataValue> = &mut self.rows[row];
        target.set(column, value);
        proof {
            assert(self@ =~= old(self)@.update(
                row as int,
                old(self)@[row as int].update(column as int, value),
            ));
            assert forall|q: int| 0 <= q < self.rows@.len() implies row_fits(
                self.fields@,
                #[trigger] self.rows@[q]@,
            ) by {
                assert(row_fits(old(self).fields@, old(self).rows@[q]@));
            }
        }
        true
    }

    /// Takes a row out of the table and returns its values, if the table
    /// has the row.
    pub fn remove_row(&mut self, row: usize) -> (r: Option<Vec<DataValue>>)
        requires
            old(self).wf(),
        ensures
            final(self).wf(),
            final(self).fields@ == old(self).fields@,
            r.is_some() == (row < old(self)@.len()),
            r.is_some() ==> r.unwrap()@ == old(self)@[row as int] && final(self)@ == old(self)@.remove(
                row as int,
            ),
            r.is_none() ==> final(self)@ == old(self)@,
    {
        if row >= self.rows.len() {
            return None;
        }
        let taken: Vec<DataValue> = self.rows.remove(row);
        proof {
            assert(self@ =~= old(self)@.remove(row as int));
            assert forall|q: int| 0 <= q < self.rows@.len() implies row_fits(
                self.fields@,
                #[trigger] self.rows@[q]@,
            ) by {
                if q < row {
                    assert(row_fits(old(self).fields@, old(self).rows@[q]@));
                } else {
                    assert(row_fits(old(self).fields@, old(self).rows@[q + 1]@));
                }
            }
        }
        Some(taken)
    }

    /// Appends a column whose cells all hold a copy of `value`. A 65536th
    /// column is refused, and so is a value of another type than the column.
    pub fn push_column(&mut self, name: u32, ty: DataType, value: &DataValue) -> (r: BcsvResult<()>)
        requires
            old(self).wf(),
        ensures
            final(self).wf(),
            r == if old(self).fields@.len() == MAX_COLUMNS {
                Err::<(), BcsvError>(BcsvError::TooManyColumns)
            } else if ty != type_of_value(*value) {
                Err::<(), BcsvError>(
                    BcsvError::InvaildRowType {
                        column: old(self).fields@.len() as usize,
                        expected: ty,
                        actual: type_of_value(*value),
                    },
                )
            } else {
                Ok::<(), BcsvError>(())
            },
            r.is_err() ==> final(self)@ == old(self)@ && final(self).fields@ == old(self).fields@,
            r.is_ok() ==> final(self).fields@ == old(self).fields@.push(
                new_column(name, ty, old(self).fields@.len() as int),
            ) && final(self)@.len() == old(self)@.len() && forall|k: int|
                0 <= k < old(self)@.len() ==> #[trigger] final(self)@[k] == old(self)@[k].push(*value),
    {
        let columns: usize = self.fields.len();
        if columns == MAX_COLUMNS {
            return Err(BcsvError::TooManyColumns);
        }
        let actual: DataType = value.ty();
        if ty != actual {
            return Err(BcsvError::InvaildRowType { column: columns, expected: ty, actual });
        }
        let n: usize = self.rows.len();
        let mut k: usize = 0;
        while k < n
            invariant
                k <= n,
                n == self.rows@.len(),
                n == old(self).rows@.len(),
                columns == old(self).fields@.len(),
                self.fields@ == old(self).fields@,
                old(self).wf(),
                ty == type_of_value(*value),
                forall|q: int| 0 <= q < k ==> (#[trigger] self.rows@[q])@ == old(self).rows@[q]@.push(*value),
                forall|q: int| k <= q < n ==> (#[trigger] self.rows@[q])@ == old(self).rows@[q]@,
            decreases n - k,
        {
            let copy: DataValue = value.duplicate();
            let target: &mut Vec<DataValue> = &mut self.rows[k];
            target.push(copy);
            k += 1;
        }
        self.fields.push(
            ColumnDefinition { name, bitmask: 0xFFFF_FFFF, offset: columns as u16, shift: 0, ty },
        );
        proof {
            assert forall|q: int| 0 <= q < self.rows@.len() implies row_fits(
                self.fields@,
                #[trigger] self.rows@[q]@,
            ) by {
                assert(row_fits(old(self).fields@, old(self).rows@[q]@));
                assert(self.rows@[q]@ == old(self).rows@[q]@.push(*value));
                assert forall|c: int| 0 <= c < self.fields@.len() implies (#[trigger] self.fields@[c]).ty
                    == type_of_value(self.rows@[q]@[c]) by {
                    if c < columns {
                        assert(old(self).fields@[c].ty == type_of_value(old(self).rows@[q]@[c]));
                    }
                }
            }
        }
        Ok(())
    }

    /// Appends a column and asks `make` for the value of each row's cell,
    /// from the first row to the last. A 65536th column is refused. Where
    /// `make` gives a value of another type than the column, it is not asked
    /// again, the answer names that type, and the table stays as it was.
    pub fn push_column_with<F: Fn() -> DataValue>(&mut self, name: u32, ty: DataType, make: F) -> (r: BcsvResult<()>)
        requires
            old(self).wf(),
            call_requires(make, ()),
        ensures
            final(self).wf(),
            (old(self).fields@.len() == MAX_COLUMNS) == (r == Err::<(), BcsvError>(BcsvError::TooManyColumns)),
            old(self).fields@.len() < MAX_COLUMNS && old(self)@.len() == 0 ==> r.is_ok(),
            r.is_err() ==> final(self)@ == old(self)@ && final(self).fields@ == old(self).fields@,
            r.is_err() && old(self).fields@.len() < MAX_COLUMNS ==> exists|v: DataValue| #[trigger]
                call_ensures(make, (), v) && type_of_value(v) != ty && r == Err::<(), BcsvError>(
                    BcsvError::InvaildRowType {
                        column: old(self).fields@.len() as usize,
                        expected: ty,
                        actual: type_of_value(v),
                    },
                ),
            r.is_ok() ==> final(self).fields@ == old(self).fields@.push(
                new_column(name, ty, old(self).fields@.len() as int),
            ) && final(self)@.len() == old(self)@.len() && forall|k: int|
                0 <= k < old(self)@.len() ==> #[trigger] final(self)@[k].len() == old(self)@[k].len() + 1
                    && final(self)@[k].drop_last() == old(self)@[k] && type_of_value(final(self)@[k].last())
                    == ty && call_ensures(make, (), final(self)@[k].last()),
    {
        let columns: usize = self.fields.len();
        if columns == MAX_COLUMNS {
            return Err(BcsvError::TooManyColumns);
        }
        let n: usize = self.rows.len();
        let mut made: Vec<DataValue> = Vec::new();
        let mut k: usize = 0;
        while k < n
            invariant
                k <= n,
                k == made@.len(),
                call_requires(make, ()),
                *self == *old(self),
                old(self).wf(),
                columns == old(self).fields@.len(),
                columns < MAX_COLUMNS,
                n == old(self).rows@.len(),
                forall|q: int| 0 <= q < k ==> type_of_value(#[trigger] made@[q]) == ty && call_ensures(make, (), made@[q]),
            decreases n - k,
        {
            let value: DataValue = make();
            let actual: DataType = value.ty();
            if ty != actual {
                return Err(BcsvError::InvaildRowType { column: columns, expected: ty, actual });
            }
            made.push(value);
            k += 1;
        }
        while k > 0
            invariant
                k <= n,
                k == made@.len(),
                n == self.rows@.len(),
                n == old(self).rows@.len(),
                columns == old(self).fields@.len(),
                self.fields@ == old(self).fields@,
                old(self).wf(),
                forall|q: int| 0 <= q < k ==> type_of_value(#[trigger] made@[q]) == ty && call_ensures(make, (), made@[q]),
                forall|q: int| 0 <= q < k ==> (#[trigger] self.rows@[q])@ == old(self).rows@[q]@,
                forall|q: int|
                    k <= q < n ==> (#[trigger] self.rows@[q])@.len() == old(self).rows@[q]@.len() + 1
                        && self.rows@[q]@.drop_last() == old(self).rows@[q]@ && type_of_value(
                        self.rows@[q]@.last(),
                    ) == ty && call_ensures(make, (), self.rows@[q]@.last()),
            decreases k,
        {
            k -= 1;
            let value: Option<DataValue> = made.pop();
            let ghost before = self.rows@[k as int]@;
            let target: &mut Vec<DataValue> = &mut self.rows[k];
            target.push(value.unwrap());
            proof {
                assert(self.rows@[k as int]@.drop_last() =~= before);
            }
        }
        self.fields.push(
            ColumnDefinition { name, bitmask: 0xFFFF_FFFF, offset: columns as u16, shift: 0, ty },
        );
        proof {
            assert forall|q: int| 0 <= q < self.rows@.len() implies row_fits(
                self.fields@,
                #[trigger] self.rows@[q]@,
            ) by {
                assert(row_fits(old(self).fields@, old(self).rows@[q]@));
                assert(self.rows@[q]@.drop_last() == old(self).rows@[q]@);
                assert forall|c: int| 0 <= c < self.fields@.len() implies (#[trigger] self.fields@[c]).ty
                    == type_of_value(self.rows@[q]@[c]) by {
                    if c < columns {
                        assert(self.rows@[q]@[c] == self.rows@[q]@.drop_last()[c]);
                        assert(old(self).fields@[c].ty == type_of_value(old(self).rows@[q]@[c]));
                    }
                }
            }
        }
        Ok(())
    }

    /// Takes a column out of the table and returns its definition and its
    /// values, from the first row to the last, if the table has the
    /// column. With its last column a table loses its rows.
    pub fn remove_column(&mut self, column: usize) -> (r: Option<(ColumnDefinition, Vec<DataValue>)>)
        requires
            old(self).wf(),
        ensures
            final(self).wf(),
            r.is_some() == (column < old(self).fields@.len()),
            r.is_none() ==> final(self)@ == old(self)@ && final(self).fields@ == old(self).fields@,
            r.is_some() ==> r.unwrap().0 == old(self).fields@[column as int] && final(self).fields@
                == old(self).fields@.remove(column as int) && r.unwrap().1@.len() == old(self)@.len()
                && forall|k: int|
                0 <= k < old(self)@.len() ==> #[trigger] r.unwrap().1@[k] == old(self)@[k][column as int],
            r.is_some() && old(self).fields@.len() > 1 ==> final(self)@.len() == old(self)@.len()
                && forall|k: int|
                0 <= k < old(self)@.len() ==> #[trigger] final(self)@[k] == old(self)@[k].remove(
                    column as int,
                ),
            r.is_some() && old(self).fields@.len() == 1 ==> final(self)@.len() == 0,
    {
        let columns: usize = self.fields.len();
        if column >= columns {
            return None;
        }
        let n: usize = self.rows.len();
        let mut taken: Vec<DataValue> = Vec::new();
        let mut k: usize = 0;
        while k < n
            invariant
                k <= n,
                n == self.rows@.len(),
                n == old(self).rows@.len(),
                columns == old(self).fields@.len(),
                column < columns,
                self.fields@ == old(self).fields@,
                old(self).wf(),
                taken@.len() == k,
                forall|q: int| 0 <= q < k ==> #[trigger] taken@[q] == old(self).rows@[q]@[column as int],
                forall|q: int|
                    0 <= q < k ==> (#[trigger] self.rows@[q])@ == old(self).rows@[q]@.remove(column as int),
                forall|q: int| k <= q < n ==> (#[trigger] self.rows@[q])@ == old(self).rows@[q]@,
            decreases n - k,
        {
            assert(row_fits(old(self).fields@, old(self).rows@[k as int]@));
            let target: &mut Vec<DataValue> = &mut self.rows[k];
            let value: DataValue = target.remove(column);
            taken.push(value);
            k += 1;
        }
        let definition: ColumnDefinition = self.fields.remove(column);
        if columns == 1 {
            self.rows.clear();
        }
        proof {
            assert forall|q: int| 0 <= q < self.rows@.len() implies row_fits(
                self.fields@,
                #[trigger] self.rows@[q]@,
            ) by {
                assert(row_fits(old(self).fields@, old(self).rows@[q]@));
                assert(self.rows@[q]@ == old(self).rows@[q]@.remove(column as int));
                assert forall|c: int| 0 <= c < self.fields@.len() implies (#[trigger] self.fields@[c]).ty
                    == type_of_value(self.rows@[q]@[c]) by {
                    if c < column {
                        assert(old(self).fields@[c].ty == type_of_value(old(self).rows@[q]@[c]));
                    } else {
                        assert(old(self).fields@[c + 1].ty == type_of_value(old(self).rows@[q]@[c + 1]));
                    }
                }
            }
        }
        Some((definition, taken))
    }
}

impl Default for Table {
    fn default() -> (r: Self)
        ensures
            r.wf(),
            r.fields@.len() == 0,
            r@.len() == 0,
    {
        Table::new()
    }
}

} // verus!
