//! Message priority levels.
//!
//! The priority of a CoValue determines the urgency assigned to its content
//! messages.  The range and order of the levels follow the eight HTTP urgency
//! levels; zero is the most urgent.

use vstd::prelude::*;

verus! {

/// An eight-level priority; `High` is 0, `Medium` is 3, `Low` is 6.
/// On the wire a priority is carried as its level number.
#[derive(Clone, Copy, Debug, PartialEq, Eq, Structural)]
pub enum CoValuePriority {
    /// High priority (level 0).
    High,
    /// Level 1.
    One,
    /// Level 2.
    Two,
    /// Medium priority (level 3).
    Medium,
    /// Level 4.
    Four,
    /// Level 5.
    Five,
    /// Low priority (level 6).
    Low,
    /// Level 7.
    Seven,
}

impl CoValuePriority {
    /// The level number of this priority.
    pub open spec fn spec_level(self) -> u8 {
        match self {
            CoValuePriority::High => 0,
            CoValuePriority::One => 1,
            CoValuePriority::Two => 2,
            CoValuePriority::Medium => 3,
            CoValuePriority::Four => 4,
            CoValuePriority::Five => 5,
            CoValuePriority::Low => 6,
            CoValuePriority::Seven => 7,
        }
    }

    /// The priority with the given level number, if the level is in range.
    pub open spec fn spec_from_level(level: u8) -> Option<CoValuePriority> {
        if level == 0 {
            Some(CoValuePriority::High)
        } else if level == 1 {
            Some(CoValuePriority::One)
        } else if level == 2 {
            Some(CoValuePriority::Two)
        } else if level == 3 {
            Some(CoValuePriority::Medium)
        } else if level == 4 {
            Some(CoValuePriority::Four)
        } else if level == 5 {
            Some(CoValuePriority::Five)
        } else if level == 6 {
            Some(CoValuePriority::Low)
        } else if level == 7 {
            Some(CoValuePriority::Seven)
        } else {
            None
        }
    }

    /// Returns the level number; levels order priorities, 0 first.
    pub fn level(self) -> (r: u8)
        ensures
            r == self.spec_level(),
            r <= 7,
    {
        match self {
            CoValuePriority::High => 0,
            CoValuePriority::One => 1,
            CoValuePriority::Two => 2,
            CoValuePriority::Medium => 3,
            CoValuePriority::Four => 4,
            CoValuePriority::Five => 5,
            CoValuePriority::Low => 6,
            CoValuePriority::Seven => 7,
        }
    }

    /// Parses a level number back into a priority.
    pub fn from_level(level: u8) -> (r: Option<CoValuePriority>)
        ensures
            r == Self::spec_from_level(level),
    {
        if level == 0 {
            Some(CoValuePriority::High)
        } else if level == 1 {
            Some(CoValuePriority::One)
        } else if level == 2 {
            Some(CoValuePriority::Two)
        } else if level == 3 {
            Some(CoValuePriority::Medium)
        } else if level == 4 {
            Some(CoValuePriority::Four)
        } else if level == 5 {
            Some(CoValuePriority::Five)
        } else if level == 6 {
            Some(CoValuePriority::Low)
        } else if level == 7 {
            Some(CoValuePriority::Seven)
        } else {
            None
        }
    }
}

/// The level round trip: every priority is recovered from its level number.
pub proof fn lemma_priority_level_round_trip(p: CoValuePriority)
    ensures
        CoValuePriority::spec_from_level(p.spec_level()) == Some(p),
{
}

} // verus!
