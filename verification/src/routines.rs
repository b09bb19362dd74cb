//! Parallel statement related code.
//!
//! This module implements the `parallel_for` statement, the single public
//! entry point of the dispatch subsystem: execution policies are defined in
//! the [`parameters`] sub-module and the per-backend dispatch routines in the
//! [`dispatch`] sub-module.

pub mod dispatch;
pub mod parameters;

use vstd::prelude::*;
use vstd::string::StringExecFns;
use crate::functor::KernelArgs;
use crate::routines::dispatch::{
    cpu, cpu_accepts, cpu_error, gpu, kernel_done, kernel_ready, serial, serial_accepts,
    serial_error, space_fits, DispatchError,
};
use crate::routines::parameters::{ExecutionPolicy, ExecutionSpace, RangePolicy};

verus! {

/// Enum used to classify possible errors occurring in a parallel statement.
#[derive(Clone, Copy, Debug, PartialEq)]
pub enum StatementError {
    /// Error occurred during dispatch; the specific [`DispatchError`] is kept
    /// as the internal value of this variant.
    Dispatch(DispatchError),
    /// Error raised when the parallel hierarchy is not respected: the policy
    /// must be an outer (depth-zero) one to be dispatched at top level.
    InconsistentDepth,
    /// Error raised when a statement is handed to an execution space that
    /// cannot host it.
    InconsistentExecSpace,
}

impl StatementError {
    /// The human-readable form of the error.
    pub open spec fn spec_message(self) -> Seq<char> {
        match self {
            StatementError::Dispatch(e) => e.spec_message(),
            StatementError::InconsistentDepth => "inconsistent depth & range policy association"@,
            StatementError::InconsistentExecSpace => "inconsistent execution space"@,
        }
    }

    /// The human-readable form of the error, for error reporting.
    pub fn message(&self) -> (r: String)
        ensures
            r@ == self.spec_message(),
    {
        match self {
            StatementError::Dispatch(e) => e.message(),
            StatementError::InconsistentDepth => {
                "inconsistent depth & range policy association".to_owned()
            },
            StatementError::InconsistentExecSpace => "inconsistent execution space".to_owned(),
        }
    }
}

impl From<DispatchError> for StatementError {
    /// A dispatch error surfaces as a statement error without discarding the
    /// underlying cause.
    fn from(e: DispatchError) -> (r: Self) {
        StatementError::Dispatch(e)
    }
}

impl vstd::std_specs::convert::FromSpecImpl<DispatchError> for StatementError {
    open spec fn obeys_from_spec() -> bool {
        true
    }

    open spec fn from_spec(e: DispatchError) -> Self {
        StatementError::Dispatch(e)
    }
}

/// Parallel For statement.
///
/// Validates that the policy's canonical nesting depth is consistent with a
/// top-level dispatch, then forwards to the dispatch routine of the policy's
/// execution space; a dispatch error is wrapped without discarding the
/// underlying cause. On success the kernel has been run on every point of
/// the policy's iteration space ([`kernel_done`]).
pub fn parallel_for<const N: usize, F: Fn(KernelArgs<N>) + Send + Sync>(
    execp: ExecutionPolicy<N>,
    func: F,
) -> (r: Result<(), StatementError>)
    requires
        execp.space is Serial ==> space_fits(execp.range),
        kernel_ready(func, execp.range),
    ensures
        r is Ok ==> kernel_done(func, execp.range),
        match r {
            Ok(()) => execp.range.spec_depth() == 0 && match execp.space {
                ExecutionSpace::Serial => serial_accepts::<N>(execp.range),
                ExecutionSpace::DeviceCPU => cpu_accepts::<N>(execp.range),
                ExecutionSpace::DeviceGPU => false,
            },
            Err(StatementError::InconsistentDepth) => execp.range.spec_depth() != 0,
            Err(StatementError::Dispatch(e)) => execp.range.spec_depth() == 0 && match execp.space {
                ExecutionSpace::Serial => !serial_accepts::<N>(execp.range) && e == serial_error(
                    execp.range,
                ),
                ExecutionSpace::DeviceCPU => !cpu_accepts::<N>(execp.range) && e == cpu_error(
                    execp.range,
                ),
                ExecutionSpace::DeviceGPU => e == DispatchError::GPU(
                    "GPU dispatch is not implemented",
                ),
            },
            Err(StatementError::InconsistentExecSpace) => false,
        },
{
    if execp.range.depth() != 0 {
        return Err(StatementError::InconsistentDepth);
    }
    let res = match execp.space {
        ExecutionSpace::Serial => serial(execp, func),
        ExecutionSpace::DeviceCPU => cpu(execp, func),
        ExecutionSpace::DeviceGPU => gpu(execp, func),
    };
    match res {
        Ok(()) => Ok(()),
        Err(e) => Err(StatementError::from(e)),
    }
}

} // verus!
