//! Runners of command lists.

use crate::process::error::ProcessError;
use crate::process::executor::Executor;
use vstd::prelude::*;

verus! {

/// What a runner does next.
#[derive(Debug)]
pub enum RunnerStep {
    /// Run the command at this position.
    Run(usize),
    /// Every command has run.
    Done,
    /// A command failed: the rest is not run.
    Stop(ProcessError),
}

/// The step after the command before position `next` came back with `last`:
/// commands run in sequence, and the first error stops the run.
fn step(next: usize, total: usize, last: Result<(), ProcessError>) -> (r: RunnerStep)
    ensures
        r == match last {
            Err(e) => RunnerStep::Stop(e),
            Ok(()) => if next < total {
                RunnerStep::Run(next)
            } else {
                RunnerStep::Done
            },
        },
{
    match last {
        Err(e) => RunnerStep::Stop(e),
        Ok(()) => if next < total {
            RunnerStep::Run(next)
        } else {
            RunnerStep::Done
        },
    }
}

/// Runs task commands sequentially.
#[derive(Debug)]
pub struct TaskRunner {
    pub executor: Executor,
}

impl TaskRunner {
    /// Create a new task runner.
    pub fn new(executor: Executor) -> (r: Self)
        ensures
            r.executor == executor,
    {
        TaskRunner { executor }
    }

    /// What to do once `next` of `total` tasks have run, the last with this
    /// outcome. Stops on first error (fail-fast).
    pub fn run_all(&self, next: usize, total: usize, last: Result<(), ProcessError>) -> (r:
        RunnerStep)
        ensures
            r == match last {
                Err(e) => RunnerStep::Stop(e),
                Ok(()) => if next < total {
                    RunnerStep::Run(next)
                } else {
                    RunnerStep::Done
                },
            },
    {
        step(next, total, last)
    }
}

/// Runs prep commands sequentially.
#[derive(Debug)]
pub struct PrepRunner {
    pub executor: Executor,
}

impl PrepRunner {
    /// Create a new prep runner.
    pub fn new(executor: Executor) -> (r: Self)
        ensures
            r.executor == executor,
    {
        PrepRunner { executor }
    }

    /// What to do once `next` of `total` commands have run, the last with this
    /// outcome. Stops on first error (fail-fast).
    pub fn run_all(&self, next: usize, total: usize, last: Result<(), ProcessError>) -> (r:
        RunnerStep)
        ensures
            r == match last {
                Err(e) => RunnerStep::Stop(e),
                Ok(()) => if next < total {
                    RunnerStep::Run(next)
                } else {
                    RunnerStep::Done
                },
            },
    {
        step(next, total, last)
    }
}

} // verus!
