//! Severity levels for log events, ordered from most to least verbose.

use vstd::prelude::*;

verus! {

/// A log severity level.  The levels form a fixed ordered set:
/// `Trace < Debug < Info < Warn < Error`.
#[derive(Clone, Copy, Debug, PartialEq, Eq, Structural)]
pub enum Level {
    Trace,
    Debug,
    Info,
    Warn,
    Error,
}

impl Level {
    /// The position of a level in the fixed order; higher means more severe.
    pub open spec fn rank(self) -> int {
        match self {
            Level::Trace => 0,
            Level::Debug => 1,
            Level::Info => 2,
            Level::Warn => 3,
            Level::Error => 4,
        }
    }

    /// True when an event at level `self` is at least as severe as `other`.
    pub fn at_least(self, other: Level) -> (r: bool)
        ensures
            r == (self.rank() >= other.rank()),
    {
        self.index() >= other.index()
    }

    fn index(self) -> (r: u8)
        ensures
            r as int == self.rank(),
    {
        match self {
            Level::Trace => 0,
            Level::Debug => 1,
            Level::Info => 2,
            Level::Warn => 3,
            Level::Error => 4,
        }
    }
}

} // verus!
