//! A pairing task: one watcher coupled to one driver.
//!
//! Each round of a pairing waits for an edge on its input line, reads the
//! level, and immediately commands the paired output to that level.  The
//! suspension point lies strictly before the side effect, so a round that
//! is abandoned while still waiting has produced no partial effect, which
//! is what makes abandonment by the selector safe.

use vstd::prelude::*;

use crate::drive::Driver;
use crate::level::Level;
use crate::watch::Watcher;

verus! {

/// One watcher coupled to one driver: the minimal unit of concurrent
/// work that the event selector races.
pub struct Pairing {
    /// The watched input line.
    pub watcher: Watcher,
    /// The driven output line.
    pub driver: Driver,
}

impl Pairing {
    /// The pairing's round would complete now.
    pub open spec fn ready(self) -> bool {
        self.watcher.ready()
    }

    /// The pairing's state after winning a round: the latched edge is
    /// consumed, the wait is disarmed, and the driver is commanded to the
    /// level the watcher observed.
    pub open spec fn after_win(self) -> Pairing {
        Pairing {
            watcher: Watcher { edge_pending: false, armed: false, ..self.watcher },
            driver: self.driver.with_level(self.watcher.level),
        }
    }

    /// The pairing's state after its round is abandoned by the selector:
    /// the wait is dropped, but the latched edge and the driver are left
    /// untouched — no side effect is unwound, and no wakeup is lost.
    pub open spec fn abandoned(self) -> Pairing {
        Pairing { watcher: Watcher { armed: false, ..self.watcher }, ..self }
    }

    /// The pairing's state after an edge arrives on its input line: the
    /// level flips and the edge is latched.
    pub open spec fn injected(self) -> Pairing {
        Pairing {
            watcher: Watcher {
                level: self.watcher.level.spec_flip(),
                edge_pending: true,
                ..self.watcher
            },
            ..self
        }
    }

    /// The pairing's state with a fresh pending wait issued.
    pub open spec fn armed(self) -> Pairing {
        Pairing { watcher: Watcher { armed: true, ..self.watcher }, ..self }
    }

    /// A fresh pairing of `watcher` and `driver`.
    pub fn new(watcher: Watcher, driver: Driver) -> (p: Pairing)
        ensures
            p == (Pairing { watcher, driver }),
    {
        Pairing { watcher, driver }
    }

    /// Whether the pairing's round would complete now.
    pub fn is_ready(&self) -> (r: bool)
        ensures
            r == self.ready(),
    {
        self.watcher.is_ready()
    }

    /// Runs the post-suspension part of one round: observes the level
    /// that completed the wait and immediately commands the paired output
    /// to it.  The returned level is the round's result for an enclosing
    /// selector.
    pub fn complete_round(&mut self) -> (r: Level)
        requires
            old(self).ready(),
        ensures
            r == old(self).watcher.level,
            *final(self) == old(self).after_win(),
    {
        let level = self.watcher.complete_wait();
        self.driver.set_level(level);
        level
    }

    /// Abandons the round's pending wait without running its
    /// post-suspension logic.
    pub fn abandon_round(&mut self)
        ensures
            *final(self) == old(self).abandoned(),
    {
        self.watcher.abandon();
    }

    /// Issues the round's pending wait.  The watcher must not already be
    /// armed: a line is never watched by two pending waits at once.
    pub fn arm_round(&mut self)
        requires
            !old(self).watcher.armed,
        ensures
            *final(self) == old(self).armed(),
    {
        self.watcher.arm();
    }
}

} // verus!
