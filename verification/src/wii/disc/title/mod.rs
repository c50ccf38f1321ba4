//! The four-letter identifier of a title.

pub mod region;
pub mod system_code;

pub use region::RegionCode;
pub use system_code::SystemCode;

use region::{region_letter, region_of};
use system_code::{system_letter, system_of};
use vstd::prelude::*;

verus! {

/// The identifier of a title: a letter for the system, two for the game,
/// one for the region.
#[derive(Debug, PartialEq, Eq, Clone, Copy)]
pub struct TitleId(pub [u8; 4]);

impl TitleId {
    /// The system that the first letter stands for.
    pub fn system_code(&self) -> (r: SystemCode)
        ensures
            r == system_of(self.0[0]),
    {
        SystemCode::from_u8(self.0[0])
    }

    /// The two letters of the game.
    pub fn game_code(&self) -> (r: &[u8])
        ensures
            r@ == self.0@.subrange(1, 3),
    {
        vstd::slice::slice_subrange(self.0.as_slice(), 1, 3)
    }

    /// The region that the last letter stands for.
    pub fn region_code(&self) -> (r: RegionCode)
        ensures
            r == region_of(self.0[3]),
    {
        RegionCode::from_u8(self.0[3])
    }

    /// The identifier made of these four letters.
    pub fn from_bytes(value: [u8; 4]) -> (r: TitleId)
        ensures
            r.0 == value,
    {
        TitleId(value)
    }

    /// The identifier of a game for a system and a region.
    pub fn from_parts(system: SystemCode, game: &[u8; 2], region: RegionCode) -> (r: TitleId)
        ensures
            r.0@ == seq![system_letter(system), game[0], game[1], region_letter(region)],
    {
        let r = TitleId([system.to_u8(), game[0], game[1], region.to_u8()]);
        assert(r.0@ =~= seq![system_letter(system), game[0], game[1], region_letter(region)]);
        r
    }

    /// The four letters.
    pub fn to_bytes(self) -> (r: [u8; 4])
        ensures
            r == self.0,
    {
        self.0
    }
}

} // verus!
