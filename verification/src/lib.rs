//! A cooperative, single-threaded event multiplexer for edge-triggered
//! digital lines.
//!
//! The crate models a small embedded pattern: several input lines are
//! watched for level changes, and each input is paired with an output that
//! must be driven to the most recently observed level.  One execution
//! context serves all pairings; a selector races the pending waits and
//! serves the first that becomes ready, with a deterministic tie-break.
//!
//! Modules, leaf first:
//! - [`level`]: the two-valued signal state.
//! - [`line`]: exclusive handles to physical lines, issued by a registry.
//! - [`watch`]: the input-line watcher and its pending wait.
//! - [`drive`]: the output-line driver.
//! - [`pair`]: one watcher coupled to one driver.
//! - [`mux`]: the event selector and the dispatch step.
//! - [`borrow`]: a read-only view of a borrowed byte vector.

pub mod borrow;
pub mod drive;
pub mod mux;
pub mod level;
pub mod line;
pub mod pair;
pub mod watch;
