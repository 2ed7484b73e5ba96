//! Carrying out state transitions.
use vstd::arithmetic::power2::{lemma_pow2_strictly_increases, lemma_pow2_unfold, pow2};
use vstd::prelude::*;

use crate::engine::model::{retry_delay, EngineModel};
use crate::engine::rate_limit::LogKey;
use crate::engine::{
    topics, Engine, ReleaseOrder, SuspendOrder, MAX_RETRY_INTERVAL, MAX_SUSPEND_ATTEMPTS,
    RETRY_INTERVAL,
};
use crate::metrics::bump;
use crate::state::app_entry::{AppModel, WakeTimer};
use crate::state::journal::FreezeMethod;
use crate::state::machine::AppState;
use crate::state::process_set::copy_handles;
use crate::system::apply::ApplyReport;
use crate::system::freeze::uses_cgroup;
use crate::system::process::ProcessHandle;
use crate::text::clone_opt;
use crate::time::{as_millis, deadline, elapsed, Nanos};

verus! {

impl Engine {
    /// Emits a message, or counts it as suppressed.
    pub(crate) fn log(&mut self, key: LogKey, now: Nanos)
        requires
            old(self).wf(),
        ensures
            final(self).wf(),
            final(self)@ == old(self)@.logged(key@, now),
    {
        let ghost m = self@;
        let notice = key.copy();
        let ghost topic = key@;
        let ghost before = self.notices@;
        if self.limiter.allow(key, now) {
            self.notices.push(notice);
            proof {
                assert(topics(self.notices@) =~= topics(before).push(topic));
            }
        } else {
            self.metrics.warns_suppressed_total = bump(self.metrics.warns_suppressed_total, 1);
        }
        proof {
            assert(self@ == m.logged(topic, now));
        }
    }

    /// Drops processes that an operation found to have exited.
    ///
    /// The periodic sweep catches the rest, but reacting here stops a retry loop
    /// from signalling the same corpse again.
    pub(crate) fn absorb_gone(&mut self, key: &str, report: &ApplyReport)
        requires
            old(self).wf(),
        ensures
            final(self).wf(),
            final(self)@ == old(self)@.absorbed(key@, report@.gone),
    {
        if report.gone.len() == 0 {
            return;
        }
        let ghost m = self@;
        self.metrics.pids_reaped_total = bump(
            self.metrics.pids_reaped_total,
            report.gone.len() as u64,
        );
        if let Some(entry) = self.registry.get_mut(key) {
            entry.remove_pids(&report.gone);
        }
        proof {
            assert(self@ == m.absorbed(key@, report@.gone));
        }
    }

    /// Reports an operation that reached only part of its targets.
    pub(crate) fn warn_partial_failure(
        &mut self,
        name: &str,
        kind: &'static str,
        report: &ApplyReport,
        now: Nanos,
    )
        requires
            old(self).wf(),
        ensures
            final(self).wf(),
            final(self)@ == old(self)@.warned(name@, kind@, report@, now),
    {
        if report.had_real_error() {
            self.log(LogKey::app(name, kind), now);
        }
    }

    /// The processes to act on when an application is released.
    ///
    /// Prefers the journal, which holds everything that was signalled, including
    /// descendants that the registry never knew about. What is recorded is not
    /// checked to be alive.
    pub(crate) fn recorded_procs_for(&self, key: &str) -> (r: Vec<ProcessHandle>)
        requires
            self.wf(),
        ensures
            r@ == self@.recorded_procs(key@),
    {
        let recorded = self.journal.procs_for(key);
        if recorded.len() > 0 {
            return recorded;
        }
        match self.registry.get(key) {
            Some(entry) => copy_handles(entry.roots().handles()),
            None => Vec::new(),
        }
    }

    /// The order to release an application.
    pub(crate) fn release_order_for(&self, key: &str, name: &str) -> (r: Option<ReleaseOrder>)
        requires
            self.wf(),
        ensures
            match r {
                Some(o) => self@.tracks(key@) && o@ == self@.release_order(key@, name@),
                None => !self@.tracks(key@),
            },
    {
        match self.registry.get(key) {
            Some(entry) => Some(
                ReleaseOrder {
                    key: key.to_owned(),
                    name: name.to_owned(),
                    state: entry.state(),
                    cgroup_path: entry.cgroup_path_buf(),
                    procs: self.recorded_procs_for(key),
                },
            ),
            None => None,
        }
    }

    /// Takes the report on the release of a frozen or throttled application.
    ///
    /// Thaw is at-least-once: a redundant resume is harmless, a missed one
    /// leaves a process stopped. Only processes that were released, or that are
    /// dead, are retired from the journal.
    pub(crate) fn restore_app_resources(
        &mut self,
        key: &str,
        name: &str,
        state: AppState,
        report: &ApplyReport,
        elapsed_ms: u64,
        now: Nanos,
    )
        requires
            old(self).wf(),
        ensures
            final(self).wf(),
            final(self)@ == old(self)@.restored(key@, name@, state, report@, elapsed_ms, now),
    {
        let ghost m = self@;
        match state {
            AppState::Frozen => {
                self.warn_partial_failure(name, "thaw-failed", report, now);
                let done = report.settled_pids();
                self.retire(key, &done);
                self.absorb_gone(key, report);
                self.metrics.apps_thawed_total = bump(self.metrics.apps_thawed_total, 1);
                self.metrics.time_in_frozen_ms = bump(self.metrics.time_in_frozen_ms, elapsed_ms);
            },
            AppState::Throttled => {
                self.absorb_gone(key, report);
                self.metrics.apps_unthrottled_total = bump(self.metrics.apps_unthrottled_total, 1);
                self.metrics.time_in_throttled_ms = bump(
                    self.metrics.time_in_throttled_ms,
                    elapsed_ms,
                );
            },
            _ => {},
        }
        proof {
            assert(self@ == m.restored(key@, name@, state, report@, elapsed_ms, now));
        }
    }

    /// Retires released processes from the journal.
    pub(crate) fn retire(&mut self, key: &str, done: &Vec<u32>)
        requires
            old(self).wf(),
        ensures
            final(self).wf(),
            final(self)@ == old(self)@.retired(key@, done@),
    {
        let ghost m = self@;
        self.journal.retire(key, done);
        proof {
            assert(self@ == m.retired(key@, done@));
        }
    }

    /// Puts an application into a state.
    pub(crate) fn enter_state(&mut self, key: &str, state: AppState, now: Nanos)
        requires
            old(self).wf(),
        ensures
            final(self).wf(),
            final(self)@ == old(self)@.entered(key@, state, now),
    {
        let ghost m = self@;
        if let Some(entry) = self.registry.get_mut(key) {
            entry.set_state(state, now);
        }
        proof {
            assert(self@ == m.entered(key@, state, now));
        }
    }

    /// Takes the report on the release of an application, and makes it active.
    pub(crate) fn activate(&mut self, key: &str, name: &str, report: &ApplyReport, now: Nanos)
        requires
            old(self).wf(),
        ensures
            final(self).wf(),
            final(self)@ == old(self)@.activated(key@, name@, report@, now),
    {
        let (state, since) = match self.registry.get(key) {
            Some(entry) => (entry.state(), entry.state_since()),
            None => {
                return;
            },
        };
        let ms = as_millis(elapsed(since, now));
        self.restore_app_resources(key, name, state, report, ms, now);
        self.enter_state(key, AppState::Active, now);
    }

    /// Takes the report on the release of an application, and leaves it in the
    /// background without timers.
    pub(crate) fn restore_to_background(
        &mut self,
        key: &str,
        name: &str,
        report: &ApplyReport,
        now: Nanos,
    )
        requires
            old(self).wf(),
        ensures
            final(self).wf(),
            final(self)@ == old(self)@.parked(key@, name@, report@, now),
    {
        self.activate(key, name, report, now);
        let ghost m = self@;
        if let Some(entry) = self.registry.get_mut(key) {
            entry.set_state(AppState::Background, now);
            entry.cancel_all_timers();
        }
        proof {
            if m.tracks(key@) {
                let b = m.app(key@).in_state(AppState::Background, now).without_timers();
                assert(self@ == m.with_app(key@, b));
            } else {
                assert(self@ == m);
            }
        }
    }

    /// Schedules the suspend timer of an application.
    pub(crate) fn schedule_suspend(&mut self, key: &str, delay: Nanos, now: Nanos)
        requires
            old(self).wf(),
        ensures
            final(self).wf(),
            final(self)@ == old(self)@.scheduled(key@, delay, now),
    {
        let ghost m = self@;
        let due = deadline(now, delay);
        if let Some(entry) = self.registry.get_mut(key) {
            entry.set_suspend_timer(due);
        }
        proof {
            assert(self@ == m.scheduled(key@, delay, now));
        }
    }

    /// Schedules the next wake-up of an application.
    pub(crate) fn schedule_maintenance(&mut self, key: &str, delay: Nanos, now: Nanos)
        requires
            old(self).wf(),
        ensures
            final(self).wf(),
            final(self)@ == old(self)@.wake_scheduled(key@, delay, now),
    {
        let ghost m = self@;
        let timer = WakeTimer { due: deadline(now, delay), sleep: false };
        if let Some(entry) = self.registry.get_mut(key) {
            entry.set_maintenance_timer(timer);
        }
        proof {
            assert(self@ == m.wake_scheduled(key@, delay, now));
        }
    }

    /// Forgets the failed attempts of an application.
    pub(crate) fn clear_failures(&mut self, key: &str)
        requires
            old(self).wf(),
        ensures
            final(self).wf(),
            final(self)@ == (EngineModel {
                failures: old(self)@.failures.remove(key@),
                ..old(self)@
            }),
    {
        let _ = self.failures.remove(key);
    }

    fn count_attempt(&mut self, key: &str) -> (r: u32)
        requires
            old(self).wf(),
        ensures
            final(self).wf(),
            r == old(self)@.attempts(key@),
            final(self)@ == (EngineModel {
                failures: old(self)@.failures.insert(key@, r),
                ..old(self)@
            }),
    {
        let attempts: u32 = match self.failures.get(key) {
            Some(n) => if *n < u32::MAX {
                *n + 1
            } else {
                u32::MAX
            },
            None => 1,
        };
        self.failures.insert(key.to_owned(), attempts);
        attempts
    }

    fn stop_suspend_timer(&mut self, key: &str)
        requires
            old(self).wf(),
        ensures
            final(self).wf(),
            final(self)@ == (if old(self)@.tracks(key@) {
                old(self)@.with_app(
                    key@,
                    AppModel { suspend_timer: None, ..old(self)@.app(key@) },
                )
            } else {
                old(self)@
            }),
    {
        let ghost m = self@;
        if let Some(entry) = self.registry.get_mut(key) {
            entry.cancel_suspend_timer();
        }
        proof {
            if m.tracks(key@) {
                assert(self@ == m.with_app(
                    key@,
                    AppModel { suspend_timer: None, ..m.app(key@) },
                ));
            } else {
                assert(self@ == m);
            }
        }
    }

    /// Handles an attempt that reached nothing.
    ///
    /// Retries back off and eventually stop.
    pub(crate) fn on_suspend_failed(
        &mut self,
        key: &str,
        name: &str,
        report: &ApplyReport,
        now: Nanos,
    )
        requires
            old(self).wf(),
        ensures
            final(self).wf(),
            final(self)@ == old(self)@.suspend_failed(key@, name@, report@, now),
    {
        if !report.had_real_error() {
            return;
        }
        let attempts = self.count_attempt(key);
        let pid = report.failed[0].0;
        self.log(LogKey::pid(name, pid, "suspend-failed"), now);
        if attempts >= MAX_SUSPEND_ATTEMPTS {
            self.stop_suspend_timer(key);
        } else {
            self.schedule_suspend(key, backoff(attempts), now);
        }
    }

    /// Records the intent to freeze an application, before any signal.
    ///
    /// Returns the order to freeze it; `None` where there is nothing to freeze.
    /// The order may only be carried out once the record is on disk: a stopped
    /// process that is not recorded cannot be recovered.
    pub(crate) fn arm_freeze(&mut self, key: &str, procs: &Vec<ProcessHandle>) -> (r: Option<
        SuspendOrder,
    >)
        requires
            old(self).wf(),
            old(self)@.tracks(key@),
        ensures
            final(self).wf(),
            match r {
                Some(o) => {
                    &&& procs@.len() > 0
                    &&& o@ == old(self)@.suspend_order(key@, procs@)
                    &&& final(self)@ == old(self)@.freeze_armed(
                        key@,
                        old(self)@.freeze_method(old(self)@.app(key@).cgroup),
                        old(self)@.app(key@).cgroup,
                        procs@,
                    )
                },
                None => procs@.len() == 0 && final(self)@ == old(self)@,
            },
    {
        if procs.len() == 0 {
            return None;
        }
        let ghost m = self@;
        let (name, cgroup_path) = match self.registry.get(key) {
            Some(entry) => (entry.app_id().as_str().to_owned(), entry.cgroup_path_buf()),
            None => {
                return None;
            },
        };
        let method = if uses_cgroup(self.caps, cgroup_path.is_some()) {
            FreezeMethod::Cgroup
        } else {
            FreezeMethod::Signal
        };
        let path = clone_opt(&cgroup_path);
        self.journal.arm(key, method, path, procs);
        proof {
            assert(self@ == m.freeze_armed(
                key@,
                m.freeze_method(m.app(key@).cgroup),
                m.app(key@).cgroup,
                procs@,
            ));
        }
        Some(
            SuspendOrder { key: key.to_owned(), name, cgroup_path, procs: copy_handles(procs) },
        )
    }

    /// Reports a freeze that was abandoned because it could not be recorded.
    pub fn abandon_freeze(&mut self, order: &SuspendOrder, now: Nanos)
        requires
            old(self).wf(),
        ensures
            final(self).wf(),
            final(self)@ == old(self)@.logged_app(order@.name, "journal-arm"@, now),
    {
        self.log(LogKey::app(&order.name, "journal-arm"), now);
    }

    /// Takes the report on a freeze.
    ///
    /// The record is narrowed to what was reached. An application of which
    /// nothing was reached stays in the background, and is retried.
    pub fn finish_freeze(&mut self, order: &SuspendOrder, report: &ApplyReport, now: Nanos)
        requires
            old(self).wf(),
        ensures
            final(self).wf(),
            final(self)@ == old(self)@.frozen(order@, report@, now),
    {
        self.absorb_gone(&order.key, report);
        let ghost m = self@;
        self.journal.commit(&order.key, &order.procs, &report.applied);
        proof {
            assert(self@ == m.freeze_committed(order@.key, order@.procs, report@.applied));
        }
        if report.nothing_applied() {
            self.on_suspend_failed(&order.key, &order.name, report, now);
            return;
        }
        self.clear_failures(&order.key);
        self.metrics.apps_frozen_total = bump(self.metrics.apps_frozen_total, 1);
        let wake = match self.registry.get(&order.key) {
            Some(entry) => if entry.policy().maintenance_resume.enabled {
                Some(entry.policy().maintenance_resume.interval)
            } else {
                None
            },
            None => None,
        };
        if let Some(interval) = wake {
            self.schedule_maintenance(&order.key, interval, now);
        }
        self.enter_state(&order.key, AppState::Frozen, now);
    }

    /// Takes the report on a throttle.
    pub fn finish_throttle(&mut self, order: &SuspendOrder, report: &ApplyReport, now: Nanos)
        requires
            old(self).wf(),
        ensures
            final(self).wf(),
            final(self)@ == old(self)@.throttled(order@, report@, now),
    {
        self.absorb_gone(&order.key, report);
        if report.nothing_applied() {
            self.on_suspend_failed(&order.key, &order.name, report, now);
            return;
        }
        self.clear_failures(&order.key);
        self.metrics.apps_throttled_total = bump(self.metrics.apps_throttled_total, 1);
        self.enter_state(&order.key, AppState::Throttled, now);
    }
}

/// The delay before the next attempt, after `attempts` failed ones.
pub fn backoff(attempts: u32) -> (r: Nanos)
    requires
        attempts >= 1,
    ensures
        r == retry_delay(attempts),
{
    let mut delay: u128 = RETRY_INTERVAL;
    let mut n: u32 = 1;
    proof {
        vstd::arithmetic::power2::lemma2_to64();
    }
    while n < attempts && delay <= MAX_RETRY_INTERVAL
        invariant
            1 <= n <= attempts,
            delay == RETRY_INTERVAL * pow2((n - 1) as nat),
            delay <= 2 * MAX_RETRY_INTERVAL,
        decreases attempts - n,
    {
        proof {
            lemma_pow2_unfold(n as nat);
            assert(RETRY_INTERVAL * pow2(n as nat) == 2 * (RETRY_INTERVAL * pow2((n - 1) as nat)))
                by (nonlinear_arith)
                requires
                    pow2(n as nat) == 2 * pow2((n - 1) as nat),
            ;
        }
        delay = 2 * delay;
        n = n + 1;
    }
    if delay <= MAX_RETRY_INTERVAL {
        delay
    } else {
        proof {
            if n < attempts {
                lemma_pow2_strictly_increases((n - 1) as nat, (attempts - 1) as nat);
            }
            assert(RETRY_INTERVAL * pow2((attempts - 1) as nat) >= RETRY_INTERVAL * pow2(
                (n - 1) as nat,
            )) by (nonlinear_arith)
                requires
                    pow2((attempts - 1) as nat) >= pow2((n - 1) as nat),
            ;
        }
        MAX_RETRY_INTERVAL
    }
}

} // verus!
