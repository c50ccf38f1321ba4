//! The region that a title is made for.

use vstd::prelude::*;

verus! {

/// A region, by the letter that stands for it in a title's identifier.
#[derive(Debug, PartialEq, Eq, Clone, Copy, Structural)]
pub enum RegionCode {
    German,
    Usa,
    France,
    Italy,
    Japan,
    Korea,
    PAL,
    Russia,
    Spanish,
    Taiwan,
    Australia,
    Unknown(u8),
}

/// The region that a letter stands for.
pub open spec fn region_of(value: u8) -> RegionCode {
    if value == 0x44 {
        RegionCode::German
    } else if value == 0x45 {
        RegionCode::Usa
    } else if value == 0x46 {
        RegionCode::France
    } else if value == 0x49 {
        RegionCode::Italy
    } else if value == 0x4A {
        RegionCode::Japan
    } else if value == 0x4B {
        RegionCode::Korea
    } else if value == 0x50 {
        RegionCode::PAL
    } else if value == 0x52 {
        RegionCode::Russia
    } else if value == 0x53 {
        RegionCode::Spanish
    } else if value == 0x54 {
        RegionCode::Taiwan
    } else if value == 0x55 {
        RegionCode::Australia
    } else {
        RegionCode::Unknown(value)
    }
}

/// The letter that stands for a region.
pub open spec fn region_letter(code: RegionCode) -> u8 {
    match code {
        RegionCode::German => 0x44,
        RegionCode::Usa => 0x45,
        RegionCode::France => 0x46,
        RegionCode::Italy => 0x49,
        RegionCode::Japan => 0x4A,
        RegionCode::Korea => 0x4B,
        RegionCode::PAL => 0x50,
        RegionCode::Russia => 0x52,
        RegionCode::Spanish => 0x53,
        RegionCode::Taiwan => 0x54,
        RegionCode::Australia => 0x55,
        RegionCode::Unknown(c) => c,
    }
}

/// A letter stands for the region whose letter it is.
pub proof fn letter_names_its_region(value: u8)
    ensures
        region_letter(region_of(value)) == value,
{
}

impl RegionCode {
    /// The region that a letter stands for.
    pub fn from_u8(value: u8) -> (r: RegionCode)
        ensures
            r == region_of(value),
    {
        match value {
            0x44 => RegionCode::German,
            0x45 => RegionCode::Usa,
            0x46 => RegionCode::France,
            0x49 => RegionCode::Italy,
            0x4A => RegionCode::Japan,
            0x4B => RegionCode::Korea,
            0x50 => RegionCode::PAL,
            0x52 => RegionCode::Russia,
            0x53 => RegionCode::Spanish,
            0x54 => RegionCode::Taiwan,
            0x55 => RegionCode::Australia,
            c => RegionCode::Unknown(c),
        }
    }

    /// The letter that stands for the region.
    pub fn to_u8(self) -> (r: u8)
        ensures
            r == region_letter(self),
    {
        match self {
            RegionCode::German => 0x44,
            RegionCode::Usa => 0x45,
            RegionCode::France => 0x46,
            RegionCode::Italy => 0x49,
            RegionCode::Japan => 0x4A,
            RegionCode::Korea => 0x4B,
            RegionCode::PAL => 0x50,
            RegionCode::Russia => 0x52,
            RegionCode::Spanish => 0x53,
            RegionCode::Taiwan => 0x54,
            RegionCode::Australia => 0x55,
            RegionCode::Unknown(c) => c,
        }
    }
}

impl From<u8> for RegionCode {
    fn from(value: u8) -> (r: Self) {
        RegionCode::from_u8(value)
    }
}

impl vstd::std_specs::convert::FromSpecImpl<u8> for RegionCode {
    open spec fn obeys_from_spec() -> bool {
        true
    }

    open spec fn from_spec(value: u8) -> Self {
        region_of(value)
    }
}

impl From<RegionCode> for u8 {
    fn from(val: RegionCode) -> (r: Self) {
        val.to_u8()
    }
}

impl vstd::std_specs::convert::FromSpecImpl<RegionCode> for u8 {
    open spec fn obeys_from_spec() -> bool {
        true
    }

    open spec fn from_spec(val: RegionCode) -> Self {
        region_letter(val)
    }
}

} // verus!
