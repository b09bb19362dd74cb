//! Parallel statement parameterization code.
//!
//! An [`ExecutionPolicy`] bundles the three choices a dispatch depends on: the
//! target execution space, the shape of the iteration range, and the
//! scheduling mode.

use vstd::prelude::*;
use core::ops::Range;

verus! {

/// Execution Space enum.
///
/// Used to specify the target device of execution for the dispatch.
/// Defaults to [`ExecutionSpace::Serial`].
#[derive(Clone, Copy, Debug, Default)]
pub enum ExecutionSpace {
    /// Default value. Execute the kernel sequentially.
    #[default]
    Serial,
    /// Target the CPU. Execute the kernel in parallel on a work-stealing
    /// thread pool.
    DeviceCPU,
    /// Target the GPU. UNIMPLEMENTED.
    DeviceGPU,
}

/// Range Policy enum.
///
/// This holds information related to the looping structure adopted by the
/// routine. The constant `N` is the dimensionality the kernel was written
/// for; a dispatch reports an inconsistency between `N` and the range's own
/// shape instead of proceeding.
#[derive(Debug)]
pub enum RangePolicy<const N: usize> {
    // Outer range
    /// 1D iteration range.
    RangePolicy(Range<usize>),
    /// N-dimensional iteration range.
    MDRangePolicy(Vec<Range<usize>>),
    /// Team-based iteration policy.
    TeamPolicy {
        /// Number of teams.
        league_size: usize,
        /// Number of threads per team.
        team_size: usize,
        /// Number of vector lanes.
        vector_size: usize,
    },
    // Specifics
    /// Policy used to ensure each team executes the body once and only once.
    PerTeam,
    /// Policy used to ensure each thread executes the body once and only once.
    PerThread,
    // Medium range
    /// Medium-level depth. Can host further nests using vectors.
    TeamThreadRange,
    /// Medium-level depth. Can host further nests using vectors.
    TeamThreadMDRange,
    /// Medium-level depth. Cannot host further nests.
    TeamVectorRange,
    /// Medium-level depth. Cannot host further nests.
    TeamVectorMDRange,
    // Inner range
    /// Inner-level depth. Cannot host further nests.
    ThreadVectorRange,
    /// Inner-level depth. Cannot host further nests.
    ThreadVectorMDRange,
}

/// Scheduling enum.
///
/// Used to set the workload scheduling policy. Defaults to
/// [`Schedule::Static`].
#[derive(Clone, Copy, Debug, Default)]
pub enum Schedule {
    /// Default value. Workload is divided once and split equally between
    /// computational resources.
    #[default]
    Static,
    /// Dynamic scheduling. Workload is split into individually stealable
    /// units and rebalanced at runtime.
    Dynamic,
}

/// Execution Policy struct.
///
/// Instead of having multiple types of execution policies with re-occurring
/// parameters, range specification is a sub-parameter of the policy.
#[derive(Debug)]
pub struct ExecutionPolicy<const N: usize> {
    /// Execution space targeted by the dispatch.
    pub space: ExecutionSpace,
    /// Iteration pattern used to handle the workload.
    pub range: RangePolicy<N>,
    /// Scheduling policy for the dispatch.
    pub schedule: Schedule,
}

impl<const N: usize> RangePolicy<N> {
    /// Canonical nesting depth of this range policy: `0` for outer (top-level)
    /// ranges, `1` for policies that must run nested inside a team dispatch,
    /// `2` for policies that must run nested inside a medium-depth dispatch.
    pub open spec fn spec_depth(self) -> int {
        match self {
            RangePolicy::RangePolicy(_) => 0,
            RangePolicy::MDRangePolicy(_) => 0,
            RangePolicy::TeamPolicy { .. } => 0,
            RangePolicy::PerTeam => 1,
            RangePolicy::PerThread => 1,
            RangePolicy::TeamThreadRange => 1,
            RangePolicy::TeamThreadMDRange => 1,
            RangePolicy::TeamVectorRange => 1,
            RangePolicy::TeamVectorMDRange => 1,
            RangePolicy::ThreadVectorRange => 2,
            RangePolicy::ThreadVectorMDRange => 2,
        }
    }

    /// Canonical nesting depth of this range policy, per the table in
    /// [`Self::spec_depth`].
    pub fn depth(&self) -> (d: usize)
        ensures
            d == self.spec_depth(),
    {
        match self {
            RangePolicy::RangePolicy(_) => 0,
            RangePolicy::MDRangePolicy(_) => 0,
            RangePolicy::TeamPolicy { .. } => 0,
            RangePolicy::PerTeam => 1,
            RangePolicy::PerThread => 1,
            RangePolicy::TeamThreadRange => 1,
            RangePolicy::TeamThreadMDRange => 1,
            RangePolicy::TeamVectorRange => 1,
            RangePolicy::TeamVectorMDRange => 1,
            RangePolicy::ThreadVectorRange => 2,
            RangePolicy::ThreadVectorMDRange => 2,
        }
    }
}

} // verus!
