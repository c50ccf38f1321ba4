//! Turning the cells of a text table into the values of a typed table.

use crate::bcsv::data::DataType;
use crate::bcsv::definition::ColumnDefinition;
use crate::bcsv::hash::{jgadget_hash, jgadget_hash_of};
use crate::bcsv::value::{DataValue, ValueView};
use crate::cli::columns::{decimal_u32, parse_decimal};
use crate::cli::numbers::{hex_digits, number_of, push_hex, read_number, within};
use crate::path::push_char;
use vstd::prelude::*;
use vstd::string::*;
use vstd::utf8::encode_utf8;

verus! {

/// The number that a text stands for in decimal notation, with a `+`, a
/// `-` or nothing before its digits, where 32 bits with a sign hold it.
pub open spec fn decimal_i32(text: Seq<char>) -> Option<i32> {
    match within(number_of(text, 10, true), -0x8000_0000, 0x7FFF_FFFF) {
        None => None,
        Some(x) => Some(x as i32),
    }
}

/// The number that a text stands for in decimal notation, with a `+`, a
/// `-` or nothing before its digits, where 16 bits with a sign hold it.
pub open spec fn decimal_i16(text: Seq<char>) -> Option<i16> {
    match within(number_of(text, 10, true), -0x8000, 0x7FFF) {
        None => None,
        Some(x) => Some(x as i16),
    }
}

/// The number that a text stands for in decimal notation, with a `+`, a
/// `-` or nothing before its digits, where 8 bits with a sign hold it.
pub open spec fn decimal_i8(text: Seq<char>) -> Option<i8> {
    match within(number_of(text, 10, true), -0x80, 0x7F) {
        None => None,
        Some(x) => Some(x as i8),
    }
}

/// A number in hexadecimal notation with capital letters and `0x` before it.
pub open spec fn upper_hex(x: u32) -> Seq<char> {
    seq!['0', 'x'] + hex_digits(x as nat)
}

/// Reads a number of 32 bits with a sign.
pub fn parse_i32(text: &str) -> (r: Option<i32>)
    ensures
        r == decimal_i32(text@),
{
    match read_number(text, 10, true, 0x7FFF_FFFF, 0x8000_0000) {
        None => None,
        Some(x) => Some(x as i32),
    }
}

/// Reads a number of 16 bits with a sign.
pub fn parse_i16(text: &str) -> (r: Option<i16>)
    ensures
        r == decimal_i16(text@),
{
    match read_number(text, 10, true, 0x7FFF, 0x8000) {
        None => None,
        Some(x) => Some(x as i16),
    }
}

/// Reads a number of 8 bits with a sign.
pub fn parse_i8(text: &str) -> (r: Option<i8>)
    ensures
        r == decimal_i8(text@),
{
    match read_number(text, 10, true, 0x7F, 0x80) {
        None => None,
        Some(x) => Some(x as i8),
    }
}

/// Writes a number in hexadecimal notation with capital letters and `0x`
/// before it.
pub fn hex_text(x: u32) -> (r: String)
    ensures
        r@ == upper_hex(x),
{
    let mut r: String = String::new();
    push_char(&mut r, '0');
    push_char(&mut r, 'x');
    assert(r@ =~= seq!['0', 'x']);
    push_hex(&mut r, x);
    r
}

/// What became of a cell's text.
#[derive(Debug, Clone, Copy, PartialEq, Eq, Structural)]
pub enum CellNote {
    /// The text was taken as it is, or read as a number.
    Taken,
    /// The text is no number of the column's type; the cell holds zero.
    NotANumber,
    /// The column holds inline strings; the cell holds the text as a
    /// string in the pool.
    InlineConverted,
}

/// The value of a cell for its text, and what became of the text. The
/// bits of a number with a fraction are handed in, where the text is one.
pub open spec fn cell_of(ty: DataType, text: Seq<char>, float: Option<u32>) -> (ValueView, CellNote) {
    match ty {
        DataType::Int32 => match decimal_i32(text) {
            Some(x) => (ValueView::Int32(x), CellNote::Taken),
            None => (ValueView::Int32(0), CellNote::NotANumber),
        },
        DataType::InlineString => (ValueView::OffsetString(text), CellNote::InlineConverted),
        DataType::Float => match float {
            Some(x) => (ValueView::Float(x), CellNote::Taken),
            None => (ValueView::Float(0), CellNote::NotANumber),
        },
        DataType::UInt32 => match decimal_u32(text) {
            Some(x) => (ValueView::UInt32(x), CellNote::Taken),
            None => (ValueView::UInt32(0), CellNote::NotANumber),
        },
        DataType::Int16 => match decimal_i16(text) {
            Some(x) => (ValueView::Int16(x), CellNote::Taken),
            None => (ValueView::Int16(0), CellNote::NotANumber),
        },
        DataType::Int8 => match decimal_i8(text) {
            Some(x) => (ValueView::Int8(x), CellNote::Taken),
            None => (ValueView::Int8(0), CellNote::NotANumber),
        },
        DataType::OffsetString => (ValueView::OffsetString(text), CellNote::Taken),
        DataType::Null => (ValueView::Null, CellNote::Taken),
    }
}

/// The value of a cell for its text.
pub fn map_cell(ty: DataType, text: &str, float: Option<u32>) -> (r: (DataValue, CellNote))
    ensures
        (r.0@, r.1) == cell_of(ty, text@, float),
{
    match ty {
        DataType::Int32 => match parse_i32(text) {
            Some(x) => (DataValue::Int32(x), CellNote::Taken),
            None => (DataValue::Int32(0), CellNote::NotANumber),
        },
        DataType::InlineString => (DataValue::OffsetString(text.to_owned()), CellNote::InlineConverted),
        DataType::Float => match float {
            Some(x) => (DataValue::Float(x), CellNote::Taken),
            None => (DataValue::Float(0), CellNote::NotANumber),
        },
        DataType::UInt32 => match parse_decimal(text) {
            Some(x) => (DataValue::UInt32(x), CellNote::Taken),
            None => (DataValue::UInt32(0), CellNote::NotANumber),
        },
        DataType::Int16 => match parse_i16(text) {
            Some(x) => (DataValue::Int16(x), CellNote::Taken),
            None => (DataValue::Int16(0), CellNote::NotANumber),
        },
        DataType::Int8 => match parse_i8(text) {
            Some(x) => (DataValue::Int8(x), CellNote::Taken),
            None => (DataValue::Int8(0), CellNote::NotANumber),
        },
        DataType::OffsetString => (DataValue::OffsetString(text.to_owned()), CellNote::Taken),
        DataType::Null => (DataValue::Null, CellNote::Taken),
    }
}

/// The values of a row for the texts of its cells, and what became of
/// each text. The row has to have one text and one float reading for
/// every column.
pub fn map_row(definitions: &[ColumnDefinition], texts: &Vec<&str>, floats: &Vec<Option<u32>>) -> (r: (
    Vec<DataValue>,
    Vec<CellNote>,
))
    requires
        texts@.len() == definitions@.len(),
        floats@.len() == definitions@.len(),
    ensures
        r.0@.len() == definitions@.len(),
        r.1@.len() == definitions@.len(),
        forall|j: int|
            0 <= j < definitions@.len() ==> ((#[trigger] r.0@[j])@, r.1@[j]) == cell_of(
                definitions@[j].ty,
                texts@[j]@,
                floats@[j],
            ),
{
    let n: usize = definitions.len();
    let mut values: Vec<DataValue> = Vec::new();
    let mut notes: Vec<CellNote> = Vec::new();
    let mut j: usize = 0;
    while j < n
        invariant
            j <= n,
            n == definitions@.len(),
            n == texts@.len(),
            n == floats@.len(),
            values@.len() == j,
            notes@.len() == j,
            forall|q: int|
                0 <= q < j ==> ((#[trigger] values@[q])@, notes@[q]) == cell_of(
                    definitions@[q].ty,
                    texts@[q]@,
                    floats@[q],
                ),
        decreases n - j,
    {
        let (value, note) = map_cell(definitions[j].ty, texts[j], floats[j]);
        values.push(value);
        notes.push(note);
        j += 1;
    }
    (values, notes)
}

/// The header of a column in a text table: the column's name, where it is
/// known, or else the hash of the name in hexadecimal notation, and the
/// name of the column's type in brackets.
pub open spec fn header_text(name: u32, ty: DataType, cracked: Option<Seq<char>>) -> Seq<char> {
    (match cracked {
        Some(x) => x,
        None => upper_hex(name),
    }) + seq!['('] + name_of_type(ty) + seq![')']
}

/// The name of a type.
pub open spec fn name_of_type(ty: DataType) -> Seq<char> {
    match ty {
        DataType::Int32 => "Int32"@,
        DataType::InlineString => "InlineString"@,
        DataType::Float => "Float"@,
        DataType::UInt32 => "UInt32"@,
        DataType::Int16 => "Int16"@,
        DataType::Int8 => "Int8"@,
        DataType::OffsetString => "OffsetString"@,
        DataType::Null => "Null"@,
    }
}

/// The header of a column in a text table.
pub fn column_header(name: u32, ty: DataType, cracked: Option<&str>) -> (r: String)
    ensures
        r@ == header_text(
            name,
            ty,
            match cracked {
                Some(x) => Some(x@),
                None => None,
            },
        ),
{
    let mut r: String = match cracked {
        Some(x) => x.to_owned(),
        None => hex_text(name),
    };
    push_char(&mut r, '(');
    r.append(ty.name());
    push_char(&mut r, ')');
    r
}

/// The names that the first `k` lines of a list of names give for their
/// hashes: of two lines with the same hash the later counts, and a line
/// that starts with `#` counts for nothing.
pub open spec fn cracked(lines: Seq<Seq<char>>, k: int) -> Map<u32, Seq<char>>
    decreases k,
{
    if k <= 0 {
        Map::empty()
    } else if lines[k - 1].len() > 0 && lines[k - 1][0] == '#' {
        cracked(lines, k - 1)
    } else {
        cracked(lines, k - 1).insert(jgadget_hash_of(encode_utf8(lines[k - 1])) as u32, lines[k - 1])
    }
}

/// The lines as the contracts see them.
pub open spec fn lines_view(v: Seq<String>) -> Seq<Seq<char>> {
    Seq::new(v.len(), |i: int| v[i]@)
}

/// The name that a list of names gives for a hash, if it gives one.
pub fn crack(lines: &Vec<String>, hash: u32) -> (r: Option<&str>)
    ensures
        r.is_some() == cracked(lines_view(lines@), lines@.len() as int).contains_key(hash),
        r.is_some() ==> r.unwrap()@ == cracked(lines_view(lines@), lines@.len() as int)[hash],
{
    let ghost view = lines_view(lines@);
    let mut i: usize = lines.len();
    while i > 0
        invariant
            i <= lines@.len(),
            view == lines_view(lines@),
            cracked(view, lines@.len() as int).contains_key(hash) == cracked(view, i as int).contains_key(
                hash,
            ),
            cracked(view, lines@.len() as int).contains_key(hash) ==> cracked(view, lines@.len() as int)[hash]
                == cracked(view, i as int)[hash],
        decreases i,
    {
        let line: &str = lines[i - 1].as_str();
        assert(view[i - 1] == line@);
        let comment: bool = line.unicode_len() > 0 && line.get_char(0) == '#';
        if !comment && jgadget_hash(line.as_bytes()) == hash {
            return Some(line);
        }
        i -= 1;
    }
    None
}

} // verus!
