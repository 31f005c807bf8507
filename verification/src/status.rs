//! The status aggregator: a module's status is a pure function of its active
//! jobs' progress toward their targets.

use vstd::prelude::*;

verus! {

/// Derived status of a module.
#[derive(Clone, Copy, PartialEq, Eq, Structural, Debug)]
pub enum ModuleStatus {
    Ready,
    Pending,
    Running,
}

/// Progress of one active job: its distinct candidate-group count and its
/// target.
#[derive(Clone, Copy, PartialEq, Eq, Structural, Debug)]
pub struct JobProgress {
    pub done: usize,
    pub target: usize,
}

/// A module with no active jobs is `Ready`; one with an active job strictly
/// between zero and its target is `Running`; one all of whose active jobs
/// have produced nothing is `Pending`; anything else is `Ready`.
pub open spec fn spec_status(jobs: Seq<JobProgress>) -> ModuleStatus {
    if jobs.len() == 0 {
        ModuleStatus::Ready
    } else if exists|j: int| 0 <= j < jobs.len() && 0 < (#[trigger] jobs[j]).done < jobs[j].target {
        ModuleStatus::Running
    } else if forall|j: int| 0 <= j < jobs.len() ==> jobs[j].done == 0 {
        ModuleStatus::Pending
    } else {
        ModuleStatus::Ready
    }
}

/// Computes a module's status from its active jobs.
pub fn module_status(jobs: &Vec<JobProgress>) -> (s: ModuleStatus)
    ensures
        s == spec_status(jobs@),
{
    if jobs.len() == 0 {
        return ModuleStatus::Ready;
    }
    let mut some_running: bool = false;
    let mut all_zero: bool = true;
    for i in 0..jobs.len()
        invariant
            some_running == exists|j: int| 0 <= j < i && 0 < (#[trigger] jobs@[j]).done < jobs@[j].target,
            all_zero == forall|j: int| 0 <= j < i ==> jobs@[j].done == 0,
    {
        let job = jobs[i];
        if 0 < job.done && job.done < job.target {
            some_running = true;
        }
        if job.done != 0 {
            all_zero = false;
        }
    }
    if some_running {
        ModuleStatus::Running
    } else if all_zero {
        ModuleStatus::Pending
    } else {
        ModuleStatus::Ready
    }
}

/// A module with no active jobs is `Ready`.
pub proof fn lemma_no_active_jobs_ready(jobs: Seq<JobProgress>)
    requires
        jobs.len() == 0,
    ensures
        spec_status(jobs) == ModuleStatus::Ready,
{
}

} // verus!
