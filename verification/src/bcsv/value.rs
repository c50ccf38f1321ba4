//! The values that the cells of a table hold.

use crate::bcsv::data::DataType;
use vstd::prelude::*;

verus! {

/// One value of one of the types of columns.
#[derive(Debug, PartialEq, Eq)]
pub enum DataValue {
    Int32(i32),
    InlineString(String),
    /// A 32-bit floating point number, as its 32 bits.
    Float(u32),
    UInt32(u32),
    Int16(i16),
    Int8(i8),
    OffsetString(String),
    Null,
}

/// What a value is to the contracts: its texts as sequences of characters.
pub enum ValueView {
    Int32(i32),
    InlineString(Seq<char>),
    Float(u32),
    UInt32(u32),
    Int16(i16),
    Int8(i8),
    OffsetString(Seq<char>),
    Null,
}

impl View for DataValue {
    type V = ValueView;

    open spec fn view(&self) -> ValueView {
        match self {
            DataValue::Int32(x) => ValueView::Int32(*x),
            DataValue::InlineString(s) => ValueView::InlineString(s@),
            DataValue::Float(x) => ValueView::Float(*x),
            DataValue::UInt32(x) => ValueView::UInt32(*x),
            DataValue::Int16(x) => ValueView::Int16(*x),
            DataValue::Int8(x) => ValueView::Int8(*x),
            DataValue::OffsetString(s) => ValueView::OffsetString(s@),
            DataValue::Null => ValueView::Null,
        }
    }
}

/// The type of a value.
pub open spec fn type_of_value(v: DataValue) -> DataType {
    match v {
        DataValue::Int32(_) => DataType::Int32,
        DataValue::InlineString(_) => DataType::InlineString,
        DataValue::Float(_) => DataType::Float,
        DataValue::UInt32(_) => DataType::UInt32,
        DataValue::Int16(_) => DataType::Int16,
        DataValue::Int8(_) => DataType::Int8,
        DataValue::OffsetString(_) => DataType::OffsetString,
        DataValue::Null => DataType::Null,
    }
}

/// The value that a new cell of a type holds: zero, the empty text, or nothing.
pub open spec fn is_default_value(v: DataValue, ty: DataType) -> bool {
    match v {
        DataValue::Int32(x) => ty == DataType::Int32 && x == 0,
        DataValue::InlineString(s) => ty == DataType::InlineString && s@.len() == 0,
        DataValue::Float(x) => ty == DataType::Float && x == 0,
        DataValue::UInt32(x) => ty == DataType::UInt32 && x == 0,
        DataValue::Int16(x) => ty == DataType::Int16 && x == 0,
        DataValue::Int8(x) => ty == DataType::Int8 && x == 0,
        DataValue::OffsetString(s) => ty == DataType::OffsetString && s@.len() == 0,
        DataValue::Null => ty == DataType::Null,
    }
}

impl DataValue {
    /// The type of the value.
    pub fn ty(&self) -> (r: DataType)
        ensures
            r == type_of_value(*self),
    {
        match self {
            DataValue::Int32(_) => DataType::Int32,
            DataValue::InlineString(_) => DataType::InlineString,
            DataValue::Float(_) => DataType::Float,
            DataValue::UInt32(_) => DataType::UInt32,
            DataValue::Int16(_) => DataType::Int16,
            DataValue::Int8(_) => DataType::Int8,
            DataValue::OffsetString(_) => DataType::OffsetString,
            DataValue::Null => DataType::Null,
        }
    }

    /// A copy of the value.
    pub fn duplicate(&self) -> (r: DataValue)
        ensures
            r == *self,
    {
        match self {
            DataValue::Int32(x) => DataValue::Int32(*x),
            DataValue::InlineString(s) => DataValue::InlineString(s.clone()),
            DataValue::Float(x) => DataValue::Float(*x),
            DataValue::UInt32(x) => DataValue::UInt32(*x),
            DataValue::Int16(x) => DataValue::Int16(*x),
            DataValue::Int8(x) => DataValue::Int8(*x),
            DataValue::OffsetString(s) => DataValue::OffsetString(s.clone()),
            DataValue::Null => DataValue::Null,
        }
    }
}

impl DataType {
    /// The value that a new cell of this type holds.
    pub fn default_value(self) -> (r: DataValue)
        ensures
            is_default_value(r, self),
            type_of_value(r) == self,
    {
        match self {
            DataType::Int32 => DataValue::Int32(0),
            DataType::InlineString => DataValue::InlineString(String::new()),
            DataType::Float => DataValue::Float(0),
            DataType::UInt32 => DataValue::UInt32(0),
            DataType::Int16 => DataValue::Int16(0),
            DataType::Int8 => DataValue::Int8(0),
            DataType::OffsetString => DataValue::OffsetString(String::new()),
            DataType::Null => DataValue::Null,
        }
    }
}

impl Default for DataValue {
    fn default() -> (r: Self)
        ensures
            r == DataValue::Null,
    {
        DataValue::Null
    }
}

} // verus!
