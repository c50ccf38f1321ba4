//! The headers of the columns of a table that is made from text.

use crate::bcsv::data::DataType;
use crate::bcsv::hash::{jgadget_hash, jgadget_hash_of};
use crate::cli::numbers::{number_of, read_number, within};
use crate::path::same_text;
use vstd::prelude::*;
use vstd::string::*;
use vstd::utf8::encode_utf8;

verus! {

/// The number that a text stands for in decimal notation: digits behind a
/// `+` or behind nothing; none where it stands for none or for one that
/// 32 bits cannot hold.
pub open spec fn decimal_u32(text: Seq<char>) -> Option<u32> {
    match within(number_of(text, 10, false), 0, 0xFFFF_FFFF) {
        None => None,
        Some(x) => Some(x as u32),
    }
}

/// The number that a text stands for in hexadecimal notation: digits and
/// the letters `a` to `f` in either case, behind a `+` or behind nothing.
pub open spec fn hex_u32(text: Seq<char>) -> Option<u32> {
    match within(number_of(text, 16, false), 0, 0xFFFF_FFFF) {
        None => None,
        Some(x) => Some(x as u32),
    }
}

/// Reads a number in decimal notation.
pub fn parse_decimal(text: &str) -> (r: Option<u32>)
    ensures
        r == decimal_u32(text@),
{
    match read_number(text, 10, false, 0xFFFF_FFFF, 0) {
        None => None,
        Some(x) => Some(x as u32),
    }
}

/// Reads a number in hexadecimal notation.
pub fn parse_hex(text: &str) -> (r: Option<u32>)
    ensures
        r == hex_u32(text@),
{
    match read_number(text, 16, false, 0xFFFF_FFFF, 0) {
        None => None,
        Some(x) => Some(x as u32),
    }
}

/// The text starts with `0x` or `0X`.
pub open spec fn has_hex_prefix(v: Seq<char>) -> bool {
    v.len() >= 2 && v[0] == '0' && (v[1] == 'x' || v[1] == 'X')
}

/// The hash that a column's header names: the number, where the header is
/// a number in decimal notation or, after `0x`, in hexadecimal notation;
/// else the hash of the header's bytes.
pub open spec fn number_or_hash(v: Seq<char>) -> u32 {
    let number = if has_hex_prefix(v) {
        hex_u32(v.subrange(2, v.len() as int))
    } else {
        decimal_u32(v)
    };
    match number {
        Some(x) => x,
        None => jgadget_hash_of(encode_utf8(v)) as u32,
    }
}

/// The index of the last `(` in `v`, or -1 where it has none.
pub open spec fn last_open(v: Seq<char>) -> int
    decreases v.len(),
{
    if v.len() == 0 {
        -1
    } else if v.last() == '(' {
        v.len() - 1
    } else {
        last_open(v.drop_last())
    }
}

/// The type that a name in a header stands for.
pub open spec fn type_named(name: Seq<char>) -> DataType {
    if name == "Long"@ {
        DataType::Int32
    } else if name == "Float"@ {
        DataType::Float
    } else if name == "Long2"@ {
        DataType::UInt32
    } else if name == "Short"@ {
        DataType::Int16
    } else if name == "Char"@ {
        DataType::Int8
    } else if name == "Null"@ {
        DataType::Null
    } else {
        DataType::OffsetString
    }
}

/// A header ends with the name of a type in brackets.
pub open spec fn has_type(v: Seq<char>) -> bool {
    v.len() > 0 && v.last() == ')' && last_open(v) >= 0
}

/// The hash and the type that a column's header names. A header that ends
/// with a name in brackets names the type of that name, and what stands
/// before the bracket names the hash; any other header names a column of
/// strings, and the whole of it names the hash.
pub open spec fn column_of(v: Seq<char>) -> (u32, DataType) {
    if has_type(v) {
        (
            number_or_hash(v.subrange(0, last_open(v))),
            type_named(v.subrange(last_open(v) + 1, v.len() - 1)),
        )
    } else {
        (number_or_hash(v), DataType::OffsetString)
    }
}

/// The hash that a column's header names.
pub fn parse_number_or_hash(value: &str) -> (r: u32)
    ensures
        r == number_or_hash(value@),
{
    let n: usize = value.unicode_len();
    let hex: bool = n >= 2 && value.get_char(0) == '0' && (value.get_char(1) == 'x' || value.get_char(
        1,
    ) == 'X');
    let number: Option<u32> = if hex {
        parse_hex(value.substring_char(2, n))
    } else {
        parse_decimal(value)
    };
    match number {
        Some(x) => x,
        None => jgadget_hash(value.as_bytes()),
    }
}

/// The type that a name in a header stands for.
pub fn type_for_name(name: &str) -> (r: DataType)
    ensures
        r == type_named(name@),
{
    if same_text(name, "Long") {
        DataType::Int32
    } else if same_text(name, "Float") {
        DataType::Float
    } else if same_text(name, "Long2") {
        DataType::UInt32
    } else if same_text(name, "Short") {
        DataType::Int16
    } else if same_text(name, "Char") {
        DataType::Int8
    } else if same_text(name, "Null") {
        DataType::Null
    } else {
        DataType::OffsetString
    }
}

/// The hash and the type that a column's header names.
pub fn find_data_type(header: &str) -> (r: (u32, DataType))
    ensures
        r == column_of(header@),
{
    let n: usize = header.unicode_len();
    if n == 0 || header.get_char(n - 1) != ')' {
        return (parse_number_or_hash(header), DataType::OffsetString);
    }
    let mut i: usize = n;
    proof {
        assert(header@.subrange(0, n as int) =~= header@);
    }
    while i > 0
        invariant
            i <= n,
            n == header@.len(),
            n > 0,
            header@.last() == ')',
            last_open(header@) == last_open(header@.subrange(0, i as int)),
        decreases i,
    {
        proof {
            assert(header@.subrange(0, i as int).last() == header@[i - 1]);
            assert(header@.subrange(0, i as int).drop_last() =~= header@.subrange(0, i - 1));
        }
        if header.get_char(i - 1) == '(' {
            let ty: DataType = type_for_name(header.substring_char(i, n - 1));
            let hash: u32 = parse_number_or_hash(header.substring_char(0, i - 1));
            return (hash, ty);
        }
        i -= 1;
    }
    proof {
        assert(header@.subrange(0, 0) =~= Seq::<char>::empty());
    }
    (parse_number_or_hash(header), DataType::OffsetString)
}

} // verus!
