//! The kind of system or disc that a title is made for.

use vstd::prelude::*;

verus! {

/// A system, by the letter that stands for it in a title's identifier.
#[derive(Debug, PartialEq, Eq, Clone, Copy, Structural)]
pub enum SystemCode {
    Revolution,
    WiiDisc,
    Gamecube,
    UtilityDisc,
    DemoDisc,
    PromotionalDisc,
    DiagnosticDisc,
    DiagnosticDisc2,
    WiiBackupDisc,
    WiiFitChanInstaller,
    Unknown(u8),
}

/// The system that a letter stands for.
pub open spec fn system_of(value: u8) -> SystemCode {
    if value == 0x52 {
        SystemCode::Revolution
    } else if value == 0x53 {
        SystemCode::WiiDisc
    } else if value == 0x47 {
        SystemCode::Gamecube
    } else if value == 0x55 {
        SystemCode::UtilityDisc
    } else if value == 0x44 {
        SystemCode::DemoDisc
    } else if value == 0x50 {
        SystemCode::PromotionalDisc
    } else if value == 0x30 {
        SystemCode::DiagnosticDisc
    } else if value == 0x31 {
        SystemCode::DiagnosticDisc2
    } else if value == 0x34 {
        SystemCode::WiiBackupDisc
    } else if value == 0x5F {
        SystemCode::WiiFitChanInstaller
    } else {
        SystemCode::Unknown(value)
    }
}

/// The letter that stands for a system.
pub open spec fn system_letter(code: SystemCode) -> u8 {
    match code {
        SystemCode::Revolution => 0x52,
        SystemCode::WiiDisc => 0x53,
        SystemCode::Gamecube => 0x47,
        SystemCode::UtilityDisc => 0x55,
        SystemCode::DemoDisc => 0x44,
        SystemCode::PromotionalDisc => 0x50,
        SystemCode::DiagnosticDisc => 0x30,
        SystemCode::DiagnosticDisc2 => 0x31,
        SystemCode::WiiBackupDisc => 0x34,
        SystemCode::WiiFitChanInstaller => 0x5F,
        SystemCode::Unknown(c) => c,
    }
}

/// A letter stands for the system whose letter it is.
pub proof fn letter_names_its_system(value: u8)
    ensures
        system_letter(system_of(value)) == value,
{
}

impl SystemCode {
    /// The system that a letter stands for.
    pub fn from_u8(value: u8) -> (r: SystemCode)
        ensures
            r == system_of(value),
    {
        match value {
            0x52 => SystemCode::Revolution,
            0x53 => SystemCode::WiiDisc,
            0x47 => SystemCode::Gamecube,
            0x55 => SystemCode::UtilityDisc,
            0x44 => SystemCode::DemoDisc,
            0x50 => SystemCode::PromotionalDisc,
            0x30 => SystemCode::DiagnosticDisc,
            0x31 => SystemCode::DiagnosticDisc2,
            0x34 => SystemCode::WiiBackupDisc,
            0x5F => SystemCode::WiiFitChanInstaller,
            c => SystemCode::Unknown(c),
        }
    }

    /// The letter that stands for the system.
    pub fn to_u8(self) -> (r: u8)
        ensures
            r == system_letter(self),
    {
        match self {
            SystemCode::Revolution => 0x52,
            SystemCode::WiiDisc => 0x53,
            SystemCode::Gamecube => 0x47,
            SystemCode::UtilityDisc => 0x55,
            SystemCode::DemoDisc => 0x44,
            SystemCode::PromotionalDisc => 0x50,
            SystemCode::DiagnosticDisc => 0x30,
            SystemCode::DiagnosticDisc2 => 0x31,
            SystemCode::WiiBackupDisc => 0x34,
            SystemCode::WiiFitChanInstaller => 0x5F,
            SystemCode::Unknown(c) => c,
        }
    }
}

impl From<u8> for SystemCode {
    fn from(value: u8) -> (r: Self) {
        SystemCode::from_u8(value)
    }
}

impl vstd::std_specs::convert::FromSpecImpl<u8> for SystemCode {
    open spec fn obeys_from_spec() -> bool {
        true
    }

    open spec fn from_spec(value: u8) -> Self {
        system_of(value)
    }
}

impl From<SystemCode> for u8 {
    fn from(val: SystemCode) -> (r: Self) {
        val.to_u8()
    }
}

impl vstd::std_specs::convert::FromSpecImpl<SystemCode> for u8 {
    open spec fn obeys_from_spec() -> bool {
        true
    }

    open spec fn from_spec(val: SystemCode) -> Self {
        system_letter(val)
    }
}

} // verus!
