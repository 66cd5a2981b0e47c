//! The digital output driver.
//!
//! A [`Driver`] wraps one physical output line and commands its level
//! immediately, without suspension and without a failure path.

use vstd::prelude::*;

use crate::level::Level;
use crate::line::LineHandle;

verus! {

/// One physical output line and the level it is commanded to.
pub struct Driver {
    /// Exclusive handle to the driven output line.
    pub line: LineHandle,
    /// The most recently commanded level.
    pub level: Level,
}

impl Driver {
    /// The driver's state after commanding level `l`.
    pub open spec fn with_level(self, l: Level) -> Driver {
        Driver { level: l, ..self }
    }

    /// A fresh driver on `line`, initialized to the defined default
    /// level `initial` before the dispatch loop starts.
    pub fn new(line: LineHandle, initial: Level) -> (d: Driver)
        ensures
            d == (Driver { line, level: initial }),
    {
        Driver { line, level: initial }
    }

    /// Reads back the most recently commanded level.
    pub fn commanded_level(&self) -> (r: Level)
        ensures
            r == self.level,
    {
        self.level
    }

    /// Commands the output to level `l`, immediately.
    pub fn set_level(&mut self, l: Level)
        ensures
            *final(self) == old(self).with_level(l),
    {
        self.level = l;
    }
}

/// Setting a level is idempotent: commanding the same level twice in a
/// row leaves the driver exactly as commanding it once does.
pub proof fn lemma_set_level_idempotent(d: Driver, l: Level)
    ensures
        d.with_level(l).with_level(l) == d.with_level(l),
{
}

} // verus!
