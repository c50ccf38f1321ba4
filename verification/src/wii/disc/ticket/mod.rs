//! The limits that a ticket sets.

use vstd::prelude::*;

verus! {

/// A time limit in seconds, or none.
#[derive(Debug, PartialEq, Eq, Clone, Copy, Structural)]
pub struct TimeLimit(pub Option<u32>);

impl TimeLimit {
    /// A limit of `seconds`.
    pub fn with_limit(seconds: u32) -> (r: Self)
        ensures
            r == TimeLimit(Some(seconds)),
    {
        TimeLimit(Some(seconds))
    }

    /// Whether there is a limit.
    pub fn is_enabled(&self) -> (r: bool)
        ensures
            r == self.0.is_some(),
    {
        self.0.is_some()
    }

    /// The limit in seconds; 0 where there is none.
    pub fn seconds(&self) -> (r: u32)
        ensures
            r == match self.0 {
                Some(s) => s,
                None => 0,
            },
    {
        match self.0 {
            Some(s) => s,
            None => 0,
        }
    }

    /// Sets the limit to `seconds`.
    pub fn set_seconds(&mut self, seconds: u32)
        ensures
            *final(self) == TimeLimit(Some(seconds)),
    {
        self.0 = Some(seconds)
    }

    /// Takes the limit away.
    pub fn disable(&mut self)
        ensures
            *final(self) == TimeLimit(None),
    {
        self.0 = None
    }
}

impl From<Option<u32>> for TimeLimit {
    fn from(value: Option<u32>) -> (r: Self) {
        TimeLimit(value)
    }
}

impl vstd::std_specs::convert::FromSpecImpl<Option<u32>> for TimeLimit {
    open spec fn obeys_from_spec() -> bool {
        true
    }

    open spec fn from_spec(value: Option<u32>) -> Self {
        TimeLimit(value)
    }
}

impl From<u32> for TimeLimit {
    fn from(value: u32) -> (r: Self) {
        TimeLimit(Some(value))
    }
}

impl vstd::std_specs::convert::FromSpecImpl<u32> for TimeLimit {
    open spec fn obeys_from_spec() -> bool {
        true
    }

    open spec fn from_spec(value: u32) -> Self {
        TimeLimit(Some(value))
    }
}

impl Default for TimeLimit {
    fn default() -> (r: Self)
        ensures
            r == TimeLimit(None),
    {
        TimeLimit(None)
    }
}

} // verus!
