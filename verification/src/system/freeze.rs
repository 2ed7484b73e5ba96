//! Stopping and resuming processes: what to signal, and what came of it.
use vstd::prelude::*;

use crate::error::SystemError;
use crate::state::process_set::{dead_part, handle_pids, live_part, split_alive};
use crate::system::apply::{pids_of, ApplyReport, PidOutcome};
use crate::system::cgroup::CgroupCapabilities;
use crate::system::process::{ProcessHandle, ProcessTable};

verus! {

/// The kernel's error number for "no such process".
pub const ESRCH: i32 = 3;

/// What came of an operation on one process.
#[derive(Debug)]
pub enum Delivery {
    /// The process was found to have exited, or its PID to name another one;
    /// nothing was done.
    Dead,
    /// The kernel accepted the operation.
    Done,
    /// The operation was refused.
    Refused(SystemError),
}

/// How many processes were resumed.
pub open spec fn count_done(outcomes: Seq<Delivery>) -> nat
    decreases outcomes.len(),
{
    if outcomes.len() == 0 {
        0
    } else {
        count_done(outcomes.drop_last()) + if outcomes.last() is Done {
            1nat
        } else {
            0nat
        }
    }
}

/// Counts the operations that the kernel accepted.
pub fn delivered(outcomes: &Vec<Delivery>) -> (r: usize)
    ensures
        r == count_done(outcomes@),
{
    let mut n: usize = 0;
    let mut i: usize = 0;
    proof {
        assert(outcomes@.take(0) =~= Seq::empty());
    }
    while i < outcomes.len()
        invariant
            i <= outcomes@.len(),
            n <= i,
            n == count_done(outcomes@.take(i as int)),
        decreases outcomes@.len() - i,
    {
        proof {
            assert(outcomes@.take(i + 1).drop_last() =~= outcomes@.take(i as int));
        }
        if matches!(outcomes[i], Delivery::Done) {
            n = n + 1;
        }
        i = i + 1;
    }
    proof {
        assert(outcomes@.take(outcomes@.len() as int) =~= outcomes@);
    }
    n
}

/// The raw PID to hand to the kernel: positive, and within 31 bits.
pub fn pid_to_raw(pid: u32) -> (r: Result<i32, SystemError>)
    ensures
        match r {
            Ok(raw) => 0 < pid <= i32::MAX && raw == pid,
            Err(e) => !(0 < pid <= i32::MAX) && e == (SystemError::ProcessNotFound { pid }),
        },
{
    if pid == 0 || pid > 0x7fff_ffff {
        Err(SystemError::ProcessNotFound { pid })
    } else {
        Ok(pid as i32)
    }
}

/// Maps the outcome of a kernel call on `pid` to a domain error. `None` means
/// success; else the error number and its text.
pub fn classify(pid: u32, failure: Option<(i32, String)>) -> (r: Result<(), SystemError>)
    ensures
        match failure {
            None => r is Ok,
            Some((code, text)) => r is Err && r->Err_0 == (if code == ESRCH {
                SystemError::ProcessGone { pid }
            } else {
                SystemError::Nix { code, text }
            }),
        },
{
    match failure {
        None => Ok(()),
        Some((code, text)) => {
            if code == ESRCH {
                Err(SystemError::ProcessGone { pid })
            } else {
                Err(SystemError::Nix { code, text })
            }
        },
    }
}

/// Whether an operation on the whole cgroup is tried first.
pub open spec fn by_cgroup(caps: CgroupCapabilities, has_cgroup: bool) -> bool {
    has_cgroup && caps.freezer
}

/// Whether an application is frozen through its cgroup: it has one, and the
/// freezer works.
pub fn uses_cgroup(caps: CgroupCapabilities, has_cgroup: bool) -> (r: bool)
    ensures
        r == by_cgroup(caps, has_cgroup),
{
    has_cgroup && caps.freezer
}

/// Whether a signal may be sent to a process: only while it is the one that was
/// recorded. Between planning and signalling it may have exited and its PID been
/// reused, and stopping a stranger is worse than doing nothing.
pub fn may_signal(handle: ProcessHandle, table: &ProcessTable) -> (r: bool)
    ensures
        r == table.alive(handle),
{
    handle.is_alive(table)
}

/// Outcome of an operation applied to a cgroup as a whole: every live member is
/// covered, and the others have exited.
pub fn group_report(procs: &Vec<ProcessHandle>, table: &ProcessTable) -> (r: ApplyReport)
    ensures
        r.applied@ == live_part(procs@, *table),
        r.gone@ == pids_of(dead_part(procs@, *table)),
        r.failed@.len() == 0,
{
    let (live, dead) = split_alive(procs, table);
    ApplyReport { applied: live, gone: handle_pids(&dead), failed: Vec::new() }
}

/// The processes that an operation reached.
pub open spec fn reached(procs: Seq<ProcessHandle>, outcomes: Seq<Delivery>) -> Seq<ProcessHandle>
    decreases procs.len(),
{
    if procs.len() == 0 || outcomes.len() != procs.len() {
        Seq::empty()
    } else {
        let before = reached(procs.drop_last(), outcomes.drop_last());
        if outcomes.last() is Done {
            before.push(procs.last())
        } else {
            before
        }
    }
}

/// The PIDs of the processes that had exited.
pub open spec fn exited(procs: Seq<ProcessHandle>, outcomes: Seq<Delivery>) -> Seq<u32>
    decreases procs.len(),
{
    if procs.len() == 0 || outcomes.len() != procs.len() {
        Seq::empty()
    } else {
        let before = exited(procs.drop_last(), outcomes.drop_last());
        match outcomes.last() {
            Delivery::Dead => before.push(procs.last().pid),
            Delivery::Done => before,
            Delivery::Refused(e) => match e {
                SystemError::ProcessGone { pid } => before.push(pid),
                _ => before,
            },
        }
    }
}

/// The PIDs for which an operation failed, with the error.
pub open spec fn refused(procs: Seq<ProcessHandle>, outcomes: Seq<Delivery>) -> Seq<
    (u32, SystemError),
>
    decreases procs.len(),
{
    if procs.len() == 0 || outcomes.len() != procs.len() {
        Seq::empty()
    } else {
        let before = refused(procs.drop_last(), outcomes.drop_last());
        match outcomes.last() {
            Delivery::Refused(e) => match e {
                SystemError::ProcessGone { pid } => before,
                _ => before.push((procs.last().pid, e)),
            },
            _ => before,
        }
    }
}

/// Sums up an operation that was tried on each process by itself.
pub fn apply_signal(procs: &Vec<ProcessHandle>, outcomes: Vec<Delivery>) -> (r: ApplyReport)
    requires
        outcomes@.len() == procs@.len(),
    ensures
        r.applied@ == reached(procs@, outcomes@),
        r.gone@ == exited(procs@, outcomes@),
        r.failed@ == refused(procs@, outcomes@),
{
    let mut report = ApplyReport::default();
    let mut outcomes = outcomes;
    let ghost all = outcomes@;
    let n: usize = procs.len();
    let mut i: usize = 0;
    proof {
        assert(all.skip(0) =~= all);
        assert(procs@.take(0) =~= Seq::empty());
        assert(all.take(0) =~= Seq::empty());
    }
    while i < n
        invariant
            i <= n,
            n == procs@.len(),
            all.len() == n,
            outcomes@ == all.skip(i as int),
            report.applied@ == reached(procs@.take(i as int), all.take(i as int)),
            report.gone@ == exited(procs@.take(i as int), all.take(i as int)),
            report.failed@ == refused(procs@.take(i as int), all.take(i as int)),
        decreases n - i,
    {
        let outcome = outcomes.remove(0);
        let handle = procs[i];
        proof {
            assert(outcome == all[i as int]);
            assert(all.skip(i as int).remove(0) =~= all.skip(i + 1));
            assert(procs@.take(i + 1).drop_last() =~= procs@.take(i as int));
            assert(all.take(i + 1).drop_last() =~= all.take(i as int));
            assert(procs@.take(i + 1).last() == handle);
            assert(all.take(i + 1).last() == outcome);
        }
        match outcome {
            Delivery::Dead => report.push(PidOutcome::Gone(handle.pid)),
            Delivery::Done => report.record(handle, Ok(())),
            Delivery::Refused(e) => report.record(handle, Err(e)),
        }
        i = i + 1;
    }
    proof {
        assert(procs@.take(n as int) =~= procs@);
        assert(all.take(n as int) =~= all);
    }
    report
}

/// A process found dead is reported gone, never reached: no signal went to it.
pub proof fn dead_is_never_reached(procs: Seq<ProcessHandle>, outcomes: Seq<Delivery>)
    requires
        outcomes.len() == procs.len(),
        forall|i: int| 0 <= i < outcomes.len() ==> #[trigger] outcomes[i] is Dead,
    ensures
        reached(procs, outcomes).len() == 0,
        exited(procs, outcomes) == pids_of(procs),
        refused(procs, outcomes).len() == 0,
    decreases procs.len(),
{
    if procs.len() > 0 {
        let o = outcomes.drop_last();
        assert forall|i: int| 0 <= i < o.len() implies #[trigger] o[i] is Dead by {
            assert(o[i] == outcomes[i]);
        }
        dead_is_never_reached(procs.drop_last(), o);
        assert(outcomes[outcomes.len() - 1] is Dead);
        assert(pids_of(procs) =~= pids_of(procs.drop_last()).push(procs.last().pid));
    } else {
        assert(pids_of(procs) =~= Seq::empty());
    }
}

/// An operation reached exactly the processes for which the kernel accepted it.
pub proof fn accepted_are_reached(procs: Seq<ProcessHandle>, outcomes: Seq<Delivery>)
    requires
        outcomes.len() == procs.len(),
    ensures
        forall|h: ProcessHandle| #[trigger]
            reached(procs, outcomes).contains(h) <==> exists|i: int|
                0 <= i < procs.len() && #[trigger] procs[i] == h && outcomes[i] is Done,
        reached(procs, outcomes).len() == count_done(outcomes),
        procs.no_duplicates() ==> reached(procs, outcomes).no_duplicates(),
    decreases procs.len(),
{
    if procs.len() > 0 {
        let p = procs.drop_last();
        let o = outcomes.drop_last();
        let n = p.len() as int;
        accepted_are_reached(p, o);
        let before = reached(p, o);
        let all = reached(procs, outcomes);
        assert forall|h: ProcessHandle| #[trigger] all.contains(h) <==> exists|i: int|
            0 <= i < procs.len() && #[trigger] procs[i] == h && outcomes[i] is Done by {
            vstd::seq_lib::lemma_seq_contains_after_push(before, procs.last(), h);
            if before.contains(h) {
                let i = choose|i: int| 0 <= i < p.len() && #[trigger] p[i] == h && o[i] is Done;
                assert(procs[i] == h && outcomes[i] is Done);
            }
            if exists|i: int| 0 <= i < procs.len() && #[trigger] procs[i] == h && outcomes[i] is Done {
                let i = choose|i: int|
                    0 <= i < procs.len() && #[trigger] procs[i] == h && outcomes[i] is Done;
                if i < n {
                    assert(p[i] == h && o[i] is Done);
                }
            }
            assert(procs[n] == procs.last());
        }
        if procs.no_duplicates() {
            assert(p.no_duplicates());
            if before.contains(procs.last()) {
                let i = choose|i: int|
                    0 <= i < p.len() && #[trigger] p[i] == procs.last() && o[i] is Done;
                assert(procs[i] == procs[n]);
            }
        }
    }
}

/// An operation reports as gone exactly the dead, and the processes of which the
/// kernel said that they are gone.
pub proof fn gone_are_reported(procs: Seq<ProcessHandle>, outcomes: Seq<Delivery>)
    requires
        outcomes.len() == procs.len(),
    ensures
        forall|pid: u32| #[trigger]
            exited(procs, outcomes).contains(pid) <==> exists|i: int|
                0 <= i < procs.len() && (#[trigger] outcomes[i] is Dead && procs[i].pid == pid
                    || outcomes[i] == Delivery::Refused(SystemError::ProcessGone { pid })),
    decreases procs.len(),
{
    if procs.len() > 0 {
        let p = procs.drop_last();
        let o = outcomes.drop_last();
        let n = p.len() as int;
        gone_are_reported(p, o);
        let before = exited(p, o);
        let all = exited(procs, outcomes);
        assert forall|pid: u32| #[trigger] all.contains(pid) <==> exists|i: int|
            0 <= i < procs.len() && (#[trigger] outcomes[i] is Dead && procs[i].pid == pid
                || outcomes[i] == Delivery::Refused(SystemError::ProcessGone { pid })) by {
            if all.len() > before.len() {
                vstd::seq_lib::lemma_seq_contains_after_push(before, all.last(), pid);
            }
            if before.contains(pid) {
                let i = choose|i: int|
                    0 <= i < p.len() && (#[trigger] o[i] is Dead && p[i].pid == pid || o[i]
                        == Delivery::Refused(SystemError::ProcessGone { pid }));
                assert(outcomes[i] == o[i] && procs[i] == p[i]);
            }
            if exists|i: int|
                0 <= i < procs.len() && (#[trigger] outcomes[i] is Dead && procs[i].pid == pid
                    || outcomes[i] == Delivery::Refused(SystemError::ProcessGone { pid })) {
                let i = choose|i: int|
                    0 <= i < procs.len() && (#[trigger] outcomes[i] is Dead && procs[i].pid == pid
                        || outcomes[i] == Delivery::Refused(SystemError::ProcessGone { pid }));
                if i < n {
                    assert(o[i] == outcomes[i] && p[i] == procs[i]);
                }
            }
            assert(procs[n] == procs.last() && outcomes[n] == outcomes.last());
        }
    }
}

/// An operation reports a failure exactly for the processes for which the kernel
/// refused it for another reason than that they are gone.
pub proof fn refusals_are_reported(procs: Seq<ProcessHandle>, outcomes: Seq<Delivery>)
    requires
        outcomes.len() == procs.len(),
    ensures
        forall|pid: u32, e: SystemError| #[trigger]
            refused(procs, outcomes).contains((pid, e)) <==> !(e is ProcessGone) && exists|i: int|
                0 <= i < procs.len() && #[trigger] outcomes[i] == Delivery::Refused(e)
                    && procs[i].pid == pid,
    decreases procs.len(),
{
    if procs.len() > 0 {
        let p = procs.drop_last();
        let o = outcomes.drop_last();
        let n = p.len() as int;
        refusals_are_reported(p, o);
        let before = refused(p, o);
        let all = refused(procs, outcomes);
        assert forall|pid: u32, e: SystemError| #[trigger] all.contains((pid, e)) <==> !(
        e is ProcessGone) && exists|i: int|
            0 <= i < procs.len() && #[trigger] outcomes[i] == Delivery::Refused(e)
                && procs[i].pid == pid by {
            if all.len() > before.len() {
                vstd::seq_lib::lemma_seq_contains_after_push(before, all.last(), (pid, e));
            }
            if before.contains((pid, e)) {
                let i = choose|i: int|
                    0 <= i < p.len() && #[trigger] o[i] == Delivery::Refused(e) && p[i].pid == pid;
                assert(outcomes[i] == o[i] && procs[i] == p[i]);
            }
            if exists|i: int|
                0 <= i < procs.len() && #[trigger] outcomes[i] == Delivery::Refused(e)
                    && procs[i].pid == pid {
                let i = choose|i: int|
                    0 <= i < procs.len() && #[trigger] outcomes[i] == Delivery::Refused(e)
                        && procs[i].pid == pid;
                if i < n {
                    assert(o[i] == outcomes[i] && p[i] == procs[i]);
                }
            }
            assert(procs[n] == procs.last() && outcomes[n] == outcomes.last());
        }
    }
}

/// The count of accepted operations is the number of places at which one was
/// accepted.
pub proof fn accepted_are_counted(outcomes: Seq<Delivery>, more: Delivery)
    ensures
        count_done(outcomes) <= outcomes.len(),
        count_done(outcomes.push(more)) == count_done(outcomes) + (if more is Done {
            1int
        } else {
            0int
        }),
        count_done(outcomes) == outcomes.len() <==> forall|i: int|
            0 <= i < outcomes.len() ==> #[trigger] outcomes[i] is Done,
    decreases outcomes.len(),
{
    assert(outcomes.push(more).drop_last() =~= outcomes);
    if outcomes.len() > 0 {
        let o = outcomes.drop_last();
        accepted_are_counted(o, more);
        if forall|i: int| 0 <= i < outcomes.len() ==> #[trigger] outcomes[i] is Done {
            assert forall|i: int| 0 <= i < o.len() implies #[trigger] o[i] is Done by {
                assert(outcomes[i] is Done);
            }
            assert(outcomes[outcomes.len() - 1] is Done);
        }
        if count_done(outcomes) == outcomes.len() {
            assert forall|i: int| 0 <= i < outcomes.len() implies #[trigger] outcomes[i] is Done by {
                if i < o.len() {
                    assert(o[i] is Done);
                }
            }
        }
    }
}

/// An application is frozen as a group only where it has a cgroup and the kernel can
/// freeze one; else process by process.
pub proof fn group_freeze_needs_a_freezer(caps: CgroupCapabilities, has_cgroup: bool)
    ensures
        !has_cgroup ==> !by_cgroup(caps, has_cgroup),
        !caps.freezer ==> !by_cgroup(caps, has_cgroup),
        has_cgroup && caps.freezer ==> by_cgroup(caps, has_cgroup),
{
}

} // verus!
