//! The two-valued state of a digital signal.

use vstd::prelude::*;

verus! {

/// The level of a digital line: a plain value type, copied freely,
/// with no ownership implications.
#[derive(Clone, Copy, Debug, PartialEq, Eq, Structural)]
pub enum Level {
    Low,
    High,
}

impl Level {
    /// The opposite level: what one edge on a line turns its level into.
    pub open spec fn spec_flip(self) -> Level {
        match self {
            Level::Low => Level::High,
            Level::High => Level::Low,
        }
    }

    /// Returns the opposite level.
    #[verifier::when_used_as_spec(spec_flip)]
    pub fn flip(self) -> (r: Level)
        ensures
            r == self.spec_flip(),
    {
        match self {
            Level::Low => Level::High,
            Level::High => Level::Low,
        }
    }
}

} // verus!
