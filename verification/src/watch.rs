//! The digital input watcher.
//!
//! A [`Watcher`] wraps one physical input line and models everything the
//! multiplexer reads of it as plain state: the line's current level, a
//! latched edge flag, and whether a pending wait is outstanding.  Edge
//! detection is latching: an edge that arrives while no wait is armed, or
//! while the wait is later abandoned, is kept and observed on the next
//! completed wait, so no wakeup is lost.  Consecutive edges before a wait
//! completes coalesce into one observation; the level read on completion
//! is the line's level at that moment.

use vstd::prelude::*;

use crate::level::Level;
use crate::line::LineHandle;

verus! {

/// One physical input line together with its (at most one) pending wait.
pub struct Watcher {
    /// Exclusive handle to the watched input line.
    pub line: LineHandle,
    /// The current level of the line.
    pub level: Level,
    /// Whether an edge has occurred since the last completed wait.
    pub edge_pending: bool,
    /// Whether a pending wait is outstanding on this line.
    pub armed: bool,
}

impl Watcher {
    /// A pending wait on this watcher would complete now: a wait is
    /// outstanding and an edge has been latched.
    pub open spec fn ready(self) -> bool {
        self.armed && self.edge_pending
    }

    /// A fresh watcher on `line`, currently at `initial`, with no latched
    /// edge and no pending wait.
    pub fn new(line: LineHandle, initial: Level) -> (w: Watcher)
        ensures
            w == (Watcher { line, level: initial, edge_pending: false, armed: false }),
    {
        Watcher { line, level: initial, edge_pending: false, armed: false }
    }

    /// Reads the line's current level.  Never suspends.
    pub fn current_level(&self) -> (r: Level)
        ensures
            r == self.level,
    {
        self.level
    }

    /// Whether a pending wait is outstanding.
    pub fn is_armed(&self) -> (r: bool)
        ensures
            r == self.armed,
    {
        self.armed
    }

    /// Whether the pending wait would complete now.
    pub fn is_ready(&self) -> (r: bool)
        ensures
            r == self.ready(),
    {
        self.armed && self.edge_pending
    }

    /// Issues a pending wait for the next edge.  At most one wait may be
    /// outstanding per line; arming an already-armed watcher is a fatal
    /// configuration error and is excluded by precondition.
    pub fn arm(&mut self)
        requires
            !old(self).armed,
        ensures
            *final(self) == (Watcher { armed: true, ..*old(self) }),
    {
        self.armed = true;
    }

    /// Abandons the pending wait, if any, without observing it.  The
    /// latched edge flag is kept, so an edge that raced the abandoned
    /// wait is re-observed once the watcher is re-armed.
    pub fn abandon(&mut self)
        ensures
            *final(self) == (Watcher { armed: false, ..*old(self) }),
    {
        self.armed = false;
    }

    /// An edge arrives from the hardware: the level flips and the edge is
    /// latched.  This is the stimulus boundary; tests and simulators call
    /// it in place of the physical pin.
    pub fn inject_edge(&mut self)
        ensures
            *final(self) == (Watcher {
                level: old(self).level.flip(),
                edge_pending: true,
                ..*old(self)
            }),
    {
        self.level = self.level.flip();
        self.edge_pending = true;
    }

    /// Completes the pending wait: consumes the latched edge, disarms the
    /// watcher, and returns the line's current level.
    pub fn complete_wait(&mut self) -> (r: Level)
        requires
            old(self).ready(),
        ensures
            r == old(self).level,
            *final(self) == (Watcher { edge_pending: false, armed: false, ..*old(self) }),
    {
        self.edge_pending = false;
        self.armed = false;
        self.level
    }
}

} // verus!
