//! Functor and kernel related code.
//!
//! A kernel is a user closure invoked once per iteration point of a dispatch.
//! There is a finite number of kernel signatures, one per family of execution
//! policies; to keep kernels generic without downcasting, the argument is a
//! closed, tagged enum.

use vstd::prelude::*;

verus! {

/// Position of one work item inside a two-level (team, thread) hierarchy,
/// handed to kernels driven by a team-based policy.
pub struct TeamHandle {
    /// Rank of the team inside the league.
    pub league_rank: usize,
    /// Rank of the thread inside its team.
    pub team_rank: usize,
    /// Number of threads per team.
    pub team_size: usize,
}

/// Kernel argument enum.
///
/// The constant `N` is the dimensionality the kernel was written for: a kernel
/// over an `N`-dimensional range receives `IndexND` values whose index vector
/// has length `N`.
pub enum KernelArgs<const N: usize> {
    /// Argument of a one-dimensional kernel: the flat iteration index.
    Index1D(usize),
    /// Argument of an `N`-dimensional kernel: one index per dimension.
    IndexND(Vec<usize>),
    /// Argument of a team-based kernel.
    Handle(TeamHandle),
}

} // verus!
