//! Structured build-time and launch-time errors. All of them abort startup
//! before any request is served; none is retried.

use vstd::prelude::*;

verus! {

/// A fatal configuration error found while the build pipeline drains.
#[derive(Clone, Copy, PartialEq, Eq, Structural, Debug)]
pub enum BuildError {
    /// A mount operation's base path carried a query component.
    InvalidMountBase,
    /// A managed-state insertion for a type key that is already managed.
    DuplicateManage(u64),
}

/// A fatal error found by the pre-launch check, after full actualization.
#[derive(Debug)]
pub enum LaunchError {
    /// Two routes with identical method, resolved path pattern and rank:
    /// the indices of a colliding pair in the route table.
    Collision(usize, usize),
    /// Attach-time hooks reported failure: their names.
    FailedFairings(Vec<String>),
}

} // verus!
