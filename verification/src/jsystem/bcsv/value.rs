//! The values that the cells of a table hold.

use crate::jsystem::bcsv::data::DataType;
use vstd::prelude::*;

verus! {

/// One value of one of the types of columns.
#[derive(Debug, PartialEq, Eq)]
pub enum DataValue {
    Int32(i32),
    InlineString(String),
    /// A 32-bit floating point number, as its 32 bits.
    Float(u32),
    UInt32(u32),
    Int16(i16),
    Byte(u8),
    String(String),
    Null,
}

/// What a value is to the contracts: its texts as sequences of characters.
pub enum ValueView {
    Int32(i32),
    InlineString(Seq<char>),
    Float(u32),
    UInt32(u32),
    Int16(i16),
    Byte(u8),
    String(Seq<char>),
    Null,
}

impl View for DataValue {
    type V = ValueView;

    open spec fn view(&self) -> ValueView {
        match self {
            DataValue::Int32(x) => ValueView::Int32(*x),
            DataValue::InlineString(s) => ValueView::InlineString(s@),
            DataValue::Float(x) => ValueView::Float(*x),
            DataValue::UInt32(x) => ValueView::UInt32(*x),
            DataValue::Int16(x) => ValueView::Int16(*x),
            DataValue::Byte(x) => ValueView::Byte(*x),
            DataValue::String(s) => ValueView::String(s@),
            DataValue::Null => ValueView::Null,
        }
    }
}

/// The type of a value.
pub open spec fn type_of_value(v: DataValue) -> DataType {
    match v {
        DataValue::Int32(_) => DataType::Int32,
        DataValue::InlineString(_) => DataType::InlineString,
        DataValue::Float(_) => DataType::Float,
        DataValue::UInt32(_) => DataType::UInt32,
        DataValue::Int16(_) => DataType::Int16,
        DataValue::Byte(_) => DataType::Byte,
        DataValue::String(_) => DataType::String,
        DataValue::Null => DataType::Null,
    }
}

impl DataValue {
    /// The type of the value.
    pub fn to_type(&self) -> (r: DataType)
        ensures
            r == type_of_value(*self),
    {
        match self {
            DataValue::Int32(_) => DataType::Int32,
            DataValue::InlineString(_) => DataType::InlineString,
            DataValue::Float(_) => DataType::Float,
            DataValue::UInt32(_) => DataType::UInt32,
            DataValue::Int16(_) => DataType::Int16,
            DataValue::Byte(_) => DataType::Byte,
            DataValue::String(_) => DataType::String,
            DataValue::Null => DataType::Null,
        }
    }

    /// A copy of the value.
    pub fn duplicate(&self) -> (r: DataValue)
        ensures
            r == *self,
    {
        match self {
            DataValue::Int32(x) => DataValue::Int32(*x),
            DataValue::InlineString(s) => DataValue::InlineString(s.clone()),
            DataValue::Float(x) => DataValue::Float(*x),
            DataValue::UInt32(x) => DataValue::UInt32(*x),
            DataValue::Int16(x) => DataValue::Int16(*x),
            DataValue::Byte(x) => DataValue::Byte(*x),
            DataValue::String(s) => DataValue::String(s.clone()),
            DataValue::Null => DataValue::Null,
        }
    }
}

} // verus!
