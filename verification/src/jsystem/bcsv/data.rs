//! The types of the columns of a table.

use crate::jsystem::bcsv::error::{BcsvError, BcsvResult};
use crate::path::same_text;
use vstd::prelude::*;

verus! {

/// The type of a column.
#[derive(Debug, PartialEq, Eq, Clone, Copy, Structural)]
pub enum DataType {
    Int32,
    InlineString,
    Float,
    UInt32,
    Int16,
    Byte,
    String,
    Null,
}

/// The width of a value of a type, in bytes.
pub open spec fn size_of(ty: DataType) -> nat {
    match ty {
        DataType::Int32 => 4,
        DataType::InlineString => 32,
        DataType::Float => 4,
        DataType::UInt32 => 4,
        DataType::Int16 => 2,
        DataType::Byte => 1,
        DataType::String => 4,
        DataType::Null => 0,
    }
}

/// The tag that stands for a type.
pub open spec fn tag_of(ty: DataType) -> u8 {
    match ty {
        DataType::Int32 => 0,
        DataType::InlineString => 1,
        DataType::Float => 2,
        DataType::UInt32 => 3,
        DataType::Int16 => 4,
        DataType::Byte => 5,
        DataType::String => 6,
        DataType::Null => 7,
    }
}

/// The type that a tag stands for.
pub open spec fn type_of(tag: u8) -> BcsvResult<DataType> {
    if tag == 0 {
        Ok(DataType::Int32)
    } else if tag == 1 {
        Ok(DataType::InlineString)
    } else if tag == 2 {
        Ok(DataType::Float)
    } else if tag == 3 {
        Ok(DataType::UInt32)
    } else if tag == 4 {
        Ok(DataType::Int16)
    } else if tag == 5 {
        Ok(DataType::Byte)
    } else if tag == 6 {
        Ok(DataType::String)
    } else if tag == 7 {
        Ok(DataType::Null)
    } else {
        Err(BcsvError::InvalidDataType(tag))
    }
}

impl DataType {
    /// The width of a value of this type, in bytes.
    pub fn size(&self) -> (r: usize)
        ensures
            r == size_of(*self),
    {
        match self {
            DataType::Int32 => 4,
            DataType::InlineString => 32,
            DataType::Float => 4,
            DataType::UInt32 => 4,
            DataType::Int16 => 2,
            DataType::Byte => 1,
            DataType::String => 4,
            DataType::Null => 0,
        }
    }

    /// The tag that stands for this type.
    pub fn tag(&self) -> (r: u8)
        ensures
            r == tag_of(*self),
    {
        match self {
            DataType::Int32 => 0,
            DataType::InlineString => 1,
            DataType::Float => 2,
            DataType::UInt32 => 3,
            DataType::Int16 => 4,
            DataType::Byte => 5,
            DataType::String => 6,
            DataType::Null => 7,
        }
    }

    /// The type that a tag stands for.
    pub fn from_tag(value: u8) -> (r: BcsvResult<DataType>)
        ensures
            r == type_of(value),
    {
        match value {
            0 => Ok(DataType::Int32),
            1 => Ok(DataType::InlineString),
            2 => Ok(DataType::Float),
            3 => Ok(DataType::UInt32),
            4 => Ok(DataType::Int16),
            5 => Ok(DataType::Byte),
            6 => Ok(DataType::String),
            7 => Ok(DataType::Null),
            id => Err(BcsvError::InvalidDataType(id)),
        }
    }

    /// The name of this type.
    pub fn name(&self) -> (r: &'static str)
        ensures
            r@ == match *self {
                DataType::Int32 => "Int32"@,
                DataType::InlineString => "InlineString"@,
                DataType::Float => "Float"@,
                DataType::UInt32 => "UInt32"@,
                DataType::Int16 => "Int16"@,
                DataType::Byte => "Byte"@,
                DataType::String => "String"@,
                DataType::Null => "Null"@,
            },
    {
        match self {
            DataType::Int32 => "Int32",
            DataType::InlineString => "InlineString",
            DataType::Float => "Float",
            DataType::UInt32 => "UInt32",
            DataType::Int16 => "Int16",
            DataType::Byte => "Byte",
            DataType::String => "String",
            DataType::Null => "Null",
        }
    }

    /// The type with this name, if there is one.
    pub fn from_name(s: &str) -> (r: Option<DataType>)
        ensures
            r == if s@ == "Int32"@ {
                Some(DataType::Int32)
            } else if s@ == "InlineString"@ {
                Some(DataType::InlineString)
            } else if s@ == "Float"@ {
                Some(DataType::Float)
            } else if s@ == "UInt32"@ {
                Some(DataType::UInt32)
            } else if s@ == "Int16"@ {
                Some(DataType::Int16)
            } else if s@ == "Byte"@ {
                Some(DataType::Byte)
            } else if s@ == "String"@ {
                Some(DataType::String)
            } else if s@ == "Null"@ {
                Some(DataType::Null)
            } else {
                None
            },
    {
        if same_text(s, "Int32") {
            Some(DataType::Int32)
        } else if same_text(s, "InlineString") {
            Some(DataType::InlineString)
        } else if same_text(s, "Float") {
            Some(DataType::Float)
        } else if same_text(s, "UInt32") {
            Some(DataType::UInt32)
        } else if same_text(s, "Int16") {
            Some(DataType::Int16)
        } else if same_text(s, "Byte") {
            Some(DataType::Byte)
        } else if same_text(s, "String") {
            Some(DataType::String)
        } else if same_text(s, "Null") {
            Some(DataType::Null)
        } else {
            None
        }
    }
}

} // verus!
