//! Throttling processes: what to write, and what came of it.
use vstd::prelude::*;

use crate::config::ThrottleParams;
use crate::error::SystemError;
use crate::system::apply::{ApplyReport, PidOutcome};
use crate::system::cgroup::{cpu_max_value, quota_percent, CgroupCapabilities, CPU_PERIOD_US};
use crate::system::freeze::{classify, Delivery, ESRCH};
use crate::system::process::ProcessHandle;
use crate::text::{decimal, format_u64};

verus! {

/// What is written to the files of a cgroup to throttle it.
#[derive(Debug)]
pub struct CpuWrites {
    /// Value for `cpu.weight`.
    pub weight: Option<String>,
    /// Value for `cpu.max`.
    pub max: Option<String>,
}

/// Decides what is written to an application's cgroup to throttle it: nothing
/// without a cgroup or without the `cpu` controller, and no quota that is not a
/// percentage.
pub fn cpu_writes(caps: CgroupCapabilities, has_cgroup: bool, params: &ThrottleParams) -> (r:
    CpuWrites)
    ensures
        match r.weight {
            Some(v) => has_cgroup && caps.cpu_control && params.cpu_weight is Some && v@ == decimal(
                params.cpu_weight->0 as nat,
            ),
            None => !(has_cgroup && caps.cpu_control && params.cpu_weight is Some),
        },
        match r.max {
            Some(v) => {
                &&& has_cgroup && caps.cpu_control && params.cpu_quota is Some
                &&& quota_percent(params.cpu_quota->0@) is Some
                &&& v@ == decimal(1000 * quota_percent(params.cpu_quota->0@)->0) + " "@ + decimal(
                    CPU_PERIOD_US as nat,
                )
            },
            None => !(has_cgroup && caps.cpu_control && params.cpu_quota is Some
                && quota_percent(params.cpu_quota->0@) is Some),
        },
{
    if !(has_cgroup && caps.cpu_control) {
        return CpuWrites { weight: None, max: None };
    }
    let weight = match params.cpu_weight {
        Some(w) => Some(format_u64(w as u64)),
        None => None,
    };
    let max = match &params.cpu_quota {
        Some(q) => match cpu_max_value(q) {
            Ok(v) => Some(v),
            Err(_) => None,
        },
        None => None,
    };
    CpuWrites { weight, max }
}

/// The processes that throttling reached: those whose niceness was set, or,
/// where there is none to set, those alive in a cgroup that a control landed on.
pub open spec fn throttled(
    procs: Seq<ProcessHandle>,
    outcomes: Seq<Delivery>,
    has_nice: bool,
    cpu_applied: bool,
) -> Seq<ProcessHandle>
    decreases procs.len(),
{
    if procs.len() == 0 || outcomes.len() != procs.len() {
        Seq::empty()
    } else {
        let before = throttled(procs.drop_last(), outcomes.drop_last(), has_nice, cpu_applied);
        let hit = if has_nice {
            outcomes.last() is Done
        } else {
            !(outcomes.last() is Dead) && cpu_applied
        };
        if hit {
            before.push(procs.last())
        } else {
            before
        }
    }
}

/// The PIDs of the processes that throttling found to have exited.
pub open spec fn throttle_exited(
    procs: Seq<ProcessHandle>,
    outcomes: Seq<Delivery>,
    has_nice: bool,
) -> Seq<u32>
    decreases procs.len(),
{
    if procs.len() == 0 || outcomes.len() != procs.len() {
        Seq::empty()
    } else {
        let before = throttle_exited(procs.drop_last(), outcomes.drop_last(), has_nice);
        match outcomes.last() {
            Delivery::Dead => before.push(procs.last().pid),
            Delivery::Done => before,
            Delivery::Refused(e) => match e {
                SystemError::ProcessGone { pid } => if has_nice {
                    before.push(pid)
                } else {
                    before
                },
                _ => before,
            },
        }
    }
}

/// The PIDs whose niceness could not be set, with the error.
pub open spec fn throttle_refused(
    procs: Seq<ProcessHandle>,
    outcomes: Seq<Delivery>,
    has_nice: bool,
) -> Seq<(u32, SystemError)>
    decreases procs.len(),
{
    if procs.len() == 0 || outcomes.len() != procs.len() {
        Seq::empty()
    } else {
        let before = throttle_refused(procs.drop_last(), outcomes.drop_last(), has_nice);
        match outcomes.last() {
            Delivery::Refused(e) => match e {
                SystemError::ProcessGone { pid } => before,
                _ => if has_nice {
                    before.push((procs.last().pid, e))
                } else {
                    before
                },
            },
            _ => before,
        }
    }
}

/// Sums up a throttle operation. `cpu_applied` says whether a CPU control landed
/// on the application's cgroup; `outcomes` are those of setting the niceness, or
/// of the check for life where there is none to set.
///
/// Without a niceness a process was reached only if a CPU control landed:
/// claiming otherwise would let an application count as throttled on a system
/// where nothing was applied at all.
pub fn apply_throttle(
    procs: &Vec<ProcessHandle>,
    outcomes: Vec<Delivery>,
    has_nice: bool,
    cpu_applied: bool,
) -> (r: ApplyReport)
    requires
        outcomes@.len() == procs@.len(),
    ensures
        r.applied@ == throttled(procs@, outcomes@, has_nice, cpu_applied),
        r.gone@ == throttle_exited(procs@, outcomes@, has_nice),
        r.failed@ == throttle_refused(procs@, outcomes@, has_nice),
{
    let mut report = ApplyReport::default();
    let mut outcomes = outcomes;
    let ghost all = outcomes@;
    let n: usize = procs.len();
    let mut i: usize = 0;
    proof {
        assert(all.skip(0) =~= all);
        assert(procs@.take(0) =~= Seq::empty());
        assert(all.take(0) =~= Seq::empty());
    }
    while i < n
        invariant
            i <= n,
            n == procs@.len(),
            all.len() == n,
            outcomes@ == all.skip(i as int),
            report.applied@ == throttled(
                procs@.take(i as int),
                all.take(i as int),
                has_nice,
                cpu_applied,
            ),
            report.gone@ == throttle_exited(procs@.take(i as int), all.take(i as int), has_nice),
            report.failed@ == throttle_refused(
                procs@.take(i as int),
                all.take(i as int),
                has_nice,
            ),
        decreases n - i,
    {
        let outcome = outcomes.remove(0);
        let handle = procs[i];
        proof {
            assert(outcome == all[i as int]);
            assert(all.skip(i as int).remove(0) =~= all.skip(i + 1));
            assert(procs@.take(i + 1).drop_last() =~= procs@.take(i as int));
            assert(all.take(i + 1).drop_last() =~= all.take(i as int));
            assert(procs@.take(i + 1).last() == handle);
            assert(all.take(i + 1).last() == outcome);
        }
        match outcome {
            Delivery::Dead => report.push(PidOutcome::Gone(handle.pid)),
            other => {
                if has_nice {
                    match other {
                        Delivery::Refused(e) => report.record(handle, Err(e)),
                        _ => report.record(handle, Ok(())),
                    }
                } else if cpu_applied {
                    report.record(handle, Ok(()));
                }
            },
        }
        i = i + 1;
    }
    proof {
        assert(procs@.take(n as int) =~= procs@);
        assert(all.take(n as int) =~= all);
    }
    report
}

/// Whether a niceness may be set for a PID at all.
pub fn nice_target(pid: u32) -> (r: Result<(), SystemError>)
    ensures
        r == (if pid == 0 {
            Result::<(), SystemError>::Err(SystemError::ProcessNotFound { pid })
        } else {
            Result::<(), SystemError>::Ok(())
        }),
{
    if pid == 0 {
        Err(SystemError::ProcessNotFound { pid })
    } else {
        Ok(())
    }
}

/// The outcome of setting the niceness of `pid`; `failure` is what the kernel
/// answered, `None` where it accepted.
pub fn set_nice(pid: u32, failure: Option<(i32, String)>) -> (r: Result<(), SystemError>)
    ensures
        pid == 0 ==> r == Result::<(), SystemError>::Err(SystemError::ProcessNotFound { pid }),
        pid != 0 ==> match failure {
            None => r is Ok,
            Some((code, text)) => r is Err && r->Err_0 == (if code == ESRCH {
                SystemError::ProcessGone { pid }
            } else {
                SystemError::Nix { code, text }
            }),
        },
{
    match nice_target(pid) {
        Ok(()) => classify(pid, failure),
        Err(e) => Err(e),
    }
}

/// Without a niceness and without a CPU control nothing counts as throttled.
pub proof fn nothing_landed_nothing_throttled(procs: Seq<ProcessHandle>, outcomes: Seq<Delivery>)
    ensures
        throttled(procs, outcomes, false, false).len() == 0,
    decreases procs.len(),
{
    if procs.len() > 0 && outcomes.len() == procs.len() {
        nothing_landed_nothing_throttled(procs.drop_last(), outcomes.drop_last());
    }
}

/// With a niceness to set, throttling reached exactly the processes whose niceness
/// was set.
pub proof fn reniced_are_throttled(
    procs: Seq<ProcessHandle>,
    outcomes: Seq<Delivery>,
    cpu_applied: bool,
)
    requires
        outcomes.len() == procs.len(),
    ensures
        forall|h: ProcessHandle| #[trigger]
            throttled(procs, outcomes, true, cpu_applied).contains(h) <==> exists|i: int|
                0 <= i < procs.len() && #[trigger] procs[i] == h && outcomes[i] is Done,
        throttled(procs, outcomes, true, cpu_applied).len() <= procs.len(),
        procs.no_duplicates() ==> throttled(
            procs,
            outcomes,
            true,
            cpu_applied,
        ).no_duplicates(),
    decreases procs.len(),
{
    if procs.len() > 0 {
        let p = procs.drop_last();
        let o = outcomes.drop_last();
        let n = p.len() as int;
        reniced_are_throttled(p, o, cpu_applied);
        let before = throttled(p, o, true, cpu_applied);
        let all = throttled(procs, outcomes, true, cpu_applied);
        assert forall|h: ProcessHandle| #[trigger] all.contains(h) <==> exists|i: int|
            0 <= i < procs.len() && #[trigger] procs[i] == h && outcomes[i] is Done by {
            vstd::seq_lib::lemma_seq_contains_after_push(before, procs.last(), h);
            if before.contains(h) {
                let i = choose|i: int| 0 <= i < p.len() && #[trigger] p[i] == h && o[i] is Done;
                assert(procs[i] == h && outcomes[i] is Done);
            }
            if exists|i: int| 0 <= i < procs.len() && #[trigger] procs[i] == h && outcomes[i] is Done {
                let i = choose|i: int|
                    0 <= i < procs.len() && #[trigger] procs[i] == h && outcomes[i] is Done;
                if i < n {
                    assert(p[i] == h && o[i] is Done);
                }
            }
            assert(procs[n] == procs.last());
        }
        if procs.no_duplicates() {
            assert(p.no_duplicates());
            if before.contains(procs.last()) {
                let i = choose|i: int|
                    0 <= i < p.len() && #[trigger] p[i] == procs.last() && o[i] is Done;
                assert(procs[i] == procs[n]);
            }
        }
    }
}

/// Without a niceness, a CPU control that landed on the cgroup reached exactly the
/// processes that are not dead.
pub proof fn cpu_control_throttles_the_living(procs: Seq<ProcessHandle>, outcomes: Seq<Delivery>)
    requires
        outcomes.len() == procs.len(),
    ensures
        forall|h: ProcessHandle| #[trigger]
            throttled(procs, outcomes, false, true).contains(h) <==> exists|i: int|
                0 <= i < procs.len() && #[trigger] procs[i] == h && !(outcomes[i] is Dead),
        throttled(procs, outcomes, false, true).len() <= procs.len(),
        procs.no_duplicates() ==> throttled(procs, outcomes, false, true).no_duplicates(),
    decreases procs.len(),
{
    if procs.len() > 0 {
        let p = procs.drop_last();
        let o = outcomes.drop_last();
        let n = p.len() as int;
        cpu_control_throttles_the_living(p, o);
        let before = throttled(p, o, false, true);
        let all = throttled(procs, outcomes, false, true);
        assert forall|h: ProcessHandle| #[trigger] all.contains(h) <==> exists|i: int|
            0 <= i < procs.len() && #[trigger] procs[i] == h && !(outcomes[i] is Dead) by {
            vstd::seq_lib::lemma_seq_contains_after_push(before, procs.last(), h);
            if before.contains(h) {
                let i = choose|i: int|
                    0 <= i < p.len() && #[trigger] p[i] == h && !(o[i] is Dead);
                assert(procs[i] == h && !(outcomes[i] is Dead));
            }
            if exists|i: int|
                0 <= i < procs.len() && #[trigger] procs[i] == h && !(outcomes[i] is Dead) {
                let i = choose|i: int|
                    0 <= i < procs.len() && #[trigger] procs[i] == h && !(outcomes[i] is Dead);
                if i < n {
                    assert(p[i] == h && !(o[i] is Dead));
                }
            }
            assert(procs[n] == procs.last());
        }
        if procs.no_duplicates() {
            assert(p.no_duplicates());
            if before.contains(procs.last()) {
                let i = choose|i: int|
                    0 <= i < p.len() && #[trigger] p[i] == procs.last() && !(o[i] is Dead);
                assert(procs[i] == procs[n]);
            }
        }
    }
}

/// Throttling reports as gone exactly the dead, and, where a niceness was set, the
/// processes of which the kernel said that they are gone.
pub proof fn throttle_reports_the_gone(
    procs: Seq<ProcessHandle>,
    outcomes: Seq<Delivery>,
    has_nice: bool,
)
    requires
        outcomes.len() == procs.len(),
    ensures
        forall|pid: u32| #[trigger]
            throttle_exited(procs, outcomes, has_nice).contains(pid) <==> exists|i: int|
                0 <= i < procs.len() && (#[trigger] outcomes[i] is Dead && procs[i].pid == pid
                    || has_nice && outcomes[i] == Delivery::Refused(
                    SystemError::ProcessGone { pid },
                )),
    decreases procs.len(),
{
    if procs.len() > 0 {
        let p = procs.drop_last();
        let o = outcomes.drop_last();
        let n = p.len() as int;
        throttle_reports_the_gone(p, o, has_nice);
        let before = throttle_exited(p, o, has_nice);
        let all = throttle_exited(procs, outcomes, has_nice);
        assert forall|pid: u32| #[trigger] all.contains(pid) <==> exists|i: int|
            0 <= i < procs.len() && (#[trigger] outcomes[i] is Dead && procs[i].pid == pid
                || has_nice && outcomes[i] == Delivery::Refused(
                SystemError::ProcessGone { pid },
            )) by {
            vstd::seq_lib::lemma_seq_contains_after_push(before, procs.last().pid, pid);
            if all.len() > before.len() {
                vstd::seq_lib::lemma_seq_contains_after_push(before, all.last(), pid);
            }
            if before.contains(pid) {
                let i = choose|i: int|
                    0 <= i < p.len() && (#[trigger] o[i] is Dead && p[i].pid == pid || has_nice
                        && o[i] == Delivery::Refused(SystemError::ProcessGone { pid }));
                assert(outcomes[i] == o[i] && procs[i] == p[i]);
            }
            if exists|i: int|
                0 <= i < procs.len() && (#[trigger] outcomes[i] is Dead && procs[i].pid == pid
                    || has_nice && outcomes[i] == Delivery::Refused(
                    SystemError::ProcessGone { pid },
                )) {
                let i = choose|i: int|
                    0 <= i < procs.len() && (#[trigger] outcomes[i] is Dead && procs[i].pid == pid
                        || has_nice && outcomes[i] == Delivery::Refused(
                        SystemError::ProcessGone { pid },
                    ));
                if i < n {
                    assert(o[i] == outcomes[i] && p[i] == procs[i]);
                }
            }
            assert(procs[n] == procs.last() && outcomes[n] == outcomes.last());
        }
    }
}

/// Throttling reports a failure exactly for the processes whose niceness the kernel
/// refused to set for another reason than that they are gone; without a niceness
/// nothing fails.
pub proof fn throttle_reports_the_failed(
    procs: Seq<ProcessHandle>,
    outcomes: Seq<Delivery>,
    has_nice: bool,
)
    requires
        outcomes.len() == procs.len(),
    ensures
        forall|pid: u32, e: SystemError| #[trigger]
            throttle_refused(procs, outcomes, has_nice).contains((pid, e)) <==> has_nice && !(
            e is ProcessGone) && exists|i: int|
                0 <= i < procs.len() && #[trigger] outcomes[i] == Delivery::Refused(e)
                    && procs[i].pid == pid,
    decreases procs.len(),
{
    if procs.len() > 0 {
        let p = procs.drop_last();
        let o = outcomes.drop_last();
        let n = p.len() as int;
        throttle_reports_the_failed(p, o, has_nice);
        let before = throttle_refused(p, o, has_nice);
        let all = throttle_refused(procs, outcomes, has_nice);
        assert forall|pid: u32, e: SystemError| #[trigger] all.contains((pid, e)) <==> has_nice
            && !(e is ProcessGone) && exists|i: int|
            0 <= i < procs.len() && #[trigger] outcomes[i] == Delivery::Refused(e)
                && procs[i].pid == pid by {
            if all.len() > before.len() {
                vstd::seq_lib::lemma_seq_contains_after_push(before, all.last(), (pid, e));
            }
            if before.contains((pid, e)) {
                let i = choose|i: int|
                    0 <= i < p.len() && #[trigger] o[i] == Delivery::Refused(e) && p[i].pid == pid;
                assert(outcomes[i] == o[i] && procs[i] == p[i]);
            }
            if exists|i: int|
                0 <= i < procs.len() && #[trigger] outcomes[i] == Delivery::Refused(e)
                    && procs[i].pid == pid {
                let i = choose|i: int|
                    0 <= i < procs.len() && #[trigger] outcomes[i] == Delivery::Refused(e)
                        && procs[i].pid == pid;
                if i < n {
                    assert(o[i] == outcomes[i] && p[i] == procs[i]);
                }
            }
            assert(procs[n] == procs.last() && outcomes[n] == outcomes.last());
        }
    }
}

} // verus!
