//! Outcome of applying an operation to a set of processes.
use vstd::prelude::*;

use crate::error::SystemError;
use crate::system::process::ProcessHandle;

verus! {

/// What happened to a single process.
#[derive(Debug)]
pub enum PidOutcome {
    /// The operation was applied.
    Applied(ProcessHandle),
    /// The process no longer exists. Not an error: it needs nothing.
    Gone(u32),
    /// The operation failed.
    Failed(u32, SystemError),
}

/// Aggregated outcome of an operation over a set of processes.
#[derive(Debug)]
pub struct ApplyReport {
    /// Processes the operation reached: by themselves, or as members of a group
    /// it was applied to.
    pub applied: Vec<ProcessHandle>,
    /// Processes that had already exited.
    pub gone: Vec<u32>,
    /// Genuine failures.
    pub failed: Vec<(u32, SystemError)>,
}

/// What an [`ApplyReport`] says.
pub ghost struct ReportModel {
    pub applied: Seq<ProcessHandle>,
    pub gone: Seq<u32>,
    pub failed: Seq<(u32, SystemError)>,
}

impl View for ApplyReport {
    type V = ReportModel;

    open spec fn view(&self) -> ReportModel {
        ReportModel { applied: self.applied@, gone: self.gone@, failed: self.failed@ }
    }
}

impl ReportModel {
    /// PIDs that need no follow-up: handled, or dead.
    pub open spec fn settled(self) -> Seq<u32> {
        pids_of(self.applied) + self.gone
    }
}

/// The PIDs of a sequence of identities.
pub open spec fn pids_of(procs: Seq<ProcessHandle>) -> Seq<u32> {
    procs.map_values(|h: ProcessHandle| h.pid)
}

impl Default for ApplyReport {
    /// A report of nothing.
    fn default() -> (r: Self)
        ensures
            r.applied@ == Seq::<ProcessHandle>::empty(),
            r.gone@ == Seq::<u32>::empty(),
            r.failed@ == Seq::<(u32, SystemError)>::empty(),
    {
        ApplyReport { applied: Vec::new(), gone: Vec::new(), failed: Vec::new() }
    }
}

impl ApplyReport {
    /// Adds the outcome of one process.
    pub fn push(&mut self, outcome: PidOutcome)
        ensures
            match outcome {
                PidOutcome::Applied(handle) => {
                    &&& final(self).applied@ == old(self).applied@.push(handle)
                    &&& final(self).gone@ == old(self).gone@
                    &&& final(self).failed@ == old(self).failed@
                },
                PidOutcome::Gone(pid) => {
                    &&& final(self).applied@ == old(self).applied@
                    &&& final(self).gone@ == old(self).gone@.push(pid)
                    &&& final(self).failed@ == old(self).failed@
                },
                PidOutcome::Failed(pid, e) => {
                    &&& final(self).applied@ == old(self).applied@
                    &&& final(self).gone@ == old(self).gone@
                    &&& final(self).failed@ == old(self).failed@.push((pid, e))
                },
            },
    {
        match outcome {
            PidOutcome::Applied(handle) => self.applied.push(handle),
            PidOutcome::Gone(pid) => self.gone.push(pid),
            PidOutcome::Failed(pid, e) => self.failed.push((pid, e)),
        }
    }

    /// Adds the result for one process; an exited process counts as gone, not
    /// as failed.
    pub fn record(&mut self, handle: ProcessHandle, result: Result<(), SystemError>)
        ensures
            match result {
                Ok(()) => {
                    &&& final(self).applied@ == old(self).applied@.push(handle)
                    &&& final(self).gone@ == old(self).gone@
                    &&& final(self).failed@ == old(self).failed@
                },
                Err(SystemError::ProcessGone { pid }) => {
                    &&& final(self).applied@ == old(self).applied@
                    &&& final(self).gone@ == old(self).gone@.push(pid)
                    &&& final(self).failed@ == old(self).failed@
                },
                Err(e) => {
                    &&& final(self).applied@ == old(self).applied@
                    &&& final(self).gone@ == old(self).gone@
                    &&& final(self).failed@ == old(self).failed@.push((handle.pid, e))
                },
            },
    {
        let outcome = match result {
            Ok(()) => PidOutcome::Applied(handle),
            Err(SystemError::ProcessGone { pid }) => PidOutcome::Gone(pid),
            Err(e) => PidOutcome::Failed(handle.pid, e),
        };
        self.push(outcome);
    }

    /// Whether nothing was reached. Distinct from "failed": an operation over
    /// dead processes alone applies to nothing and went well.
    pub fn nothing_applied(&self) -> (r: bool)
        ensures
            r == (self.applied@.len() == 0),
    {
        self.applied.len() == 0
    }

    /// Whether any process failed for a reason other than having exited.
    pub fn had_real_error(&self) -> (r: bool)
        ensures
            r == (self.failed@.len() > 0),
    {
        self.failed.len() > 0
    }

    /// PIDs that need no follow-up: handled, or dead.
    pub fn settled_pids(&self) -> (r: Vec<u32>)
        ensures
            r@ == self@.settled(),
    {
        let mut out: Vec<u32> = Vec::new();
        let mut i: usize = 0;
        while i < self.applied.len()
            invariant
                i <= self.applied@.len(),
                out@ == pids_of(self.applied@).take(i as int),
            decreases self.applied@.len() - i,
        {
            out.push(self.applied[i].pid);
            i = i + 1;
            proof {
                assert(out@ =~= pids_of(self.applied@).take(i as int));
            }
        }
        let mut j: usize = 0;
        proof {
            assert(out@ =~= pids_of(self.applied@) + self.gone@.take(0));
        }
        while j < self.gone.len()
            invariant
                j <= self.gone@.len(),
                out@ == pids_of(self.applied@) + self.gone@.take(j as int),
            decreases self.gone@.len() - j,
        {
            out.push(self.gone[j]);
            j = j + 1;
            proof {
                assert(out@ =~= pids_of(self.applied@) + self.gone@.take(j as int));
            }
        }
        proof {
            assert(self.gone@.take(self.gone@.len() as int) =~= self.gone@);
        }
        out
    }
}

/// A PID needs no follow-up exactly where its process was reached or is gone: one
/// for which the operation failed still needs it.
pub proof fn settled_is_reached_or_gone(report: ReportModel, pid: u32)
    ensures
        report.settled().contains(pid) <==> report.gone.contains(pid) || exists|i: int|
            0 <= i < report.applied.len() && (#[trigger] report.applied[i]).pid == pid,
{
    let s = report.settled();
    let n = report.applied.len() as int;
    if s.contains(pid) {
        let i = choose|i: int| 0 <= i < s.len() && s[i] == pid;
        if i < n {
            assert(report.applied[i].pid == pid);
        } else {
            assert(report.gone[i - n] == pid);
        }
    }
    if report.gone.contains(pid) {
        let i = choose|i: int| 0 <= i < report.gone.len() && report.gone[i] == pid;
        assert(s[n + i] == pid);
    }
    if exists|i: int| 0 <= i < report.applied.len() && (#[trigger] report.applied[i]).pid == pid {
        let i = choose|i: int|
            0 <= i < report.applied.len() && (#[trigger] report.applied[i]).pid == pid;
        assert(s[i] == pid);
    }
}

} // verus!
