//! What the engine knows, and how each event changes it.
//!
//! Every decision of the engine is a function on [`EngineModel`]; the executable
//! engine is proved to compute it.
use vstd::prelude::*;

use crate::assoc::without_key;
use crate::config::matching::{context_of, policy_for};
use crate::config::{Action, Config, PolicyModel};
use crate::desktop::window::WindowInfo;
use crate::engine::rate_limit::{after_asking, allowed, forgotten, Seen, Topic};
use crate::engine::{
    LOG_SUPPRESSION_WINDOW, MAX_RETRY_INTERVAL, MAX_SUSPEND_ATTEMPTS, RETRY_INTERVAL,
};
use crate::guards::GuardResult;
use crate::ipc::protocol::TargetModel;
use crate::metrics::{bumped, Metrics};
use crate::state::app_entry::{fresh_app, window_app, AppModel, WakeTimer};
use crate::state::journal::{
    armed, committed, procs_in, resumable, retired, FreezeMethod, JournalRecord, Pending,
};
use crate::state::machine::AppState;
use crate::state::process_set::without_pids;
use crate::state::registry::RegistryModel;
use crate::system::apply::{pids_of, ReportModel};
use crate::system::cgroup::CgroupCapabilities;
use crate::system::freeze::by_cgroup;
use crate::system::power::PowerSource;
use crate::system::process::{ProcessHandle, ProcessTable};
use crate::system::protection::{
    app_verdict, exemption_text, spared, unprotected, verdict_text, Verdict,
};
use crate::text::{ascii_lowercase, decimal, opt_text};
use crate::time::{later, millis, span, whole_secs, Nanos};

verus! {

/// What the engine knows.
pub ghost struct EngineModel {
    /// The tracked applications.
    pub reg: RegistryModel,
    pub config: Config,
    pub caps: CgroupCapabilities,
    /// What is recorded as suspended.
    pub journal: Map<Seq<char>, JournalRecord>,
    /// The write to the journal's file that is owed.
    pub owed: Pending,
    /// Whether the journal has no file.
    pub in_memory: bool,
    /// The path of the journal's file.
    pub journal_path: Seq<char>,
    /// Owners of session-bus names.
    pub owners: Map<u32, Seq<char>>,
    /// Messages that were logged.
    pub seen: Seq<Seen>,
    /// Messages that are to be logged.
    pub notices: Seq<Topic>,
    /// Consecutive failed suspend attempts.
    pub failures: Map<Seq<char>, u32>,
    pub metrics: Metrics,
    /// Desktop files, by executable.
    pub desktops: Map<Seq<char>, Seq<char>>,
    pub enabled: bool,
    /// The detected power source.
    pub power: PowerSource,
    /// The power source that the user forces.
    pub forced: Option<PowerSource>,
    pub start: Nanos,
    pub reconcile_interval: Nanos,
    pub dbus_check: bool,
    pub dbus_refresh_interval: Nanos,
    pub last_refresh: Option<Nanos>,
    /// Whether a reconcile sweep is running.
    pub in_flight: bool,
}

/// An order to release a suspended application.
pub ghost struct ReleaseModel {
    pub key: Seq<char>,
    pub name: Seq<char>,
    pub state: AppState,
    pub cgroup: Option<String>,
    pub procs: Seq<ProcessHandle>,
}

/// An order to suspend an application.
pub ghost struct SuspendModel {
    pub key: Seq<char>,
    pub name: Seq<char>,
    pub cgroup: Option<String>,
    pub procs: Seq<ProcessHandle>,
}

/// What is reported of an application.
pub ghost struct InfoModel {
    pub app_id: Seq<char>,
    pub state: AppState,
    pub pids: Seq<u32>,
    pub executable: Option<Seq<char>>,
    pub wm_class: Option<Seq<char>>,
    pub window_title: Option<Seq<char>>,
    pub profile: Option<Seq<char>>,
    pub rule_id: Option<Seq<char>>,
    pub state_since_secs: u64,
    pub protected: Option<Seq<char>>,
}

/// The process that a manual command on a PID applies to, or why it is refused:
/// it must exist, and be the user's own.
pub open spec fn ipc_pid(pid: u32, table: ProcessTable) -> Result<ProcessHandle, Seq<char>> {
    if pid == 0 {
        Err("pid 0 is not a valid target"@)
    } else {
        match table.handle_of(pid) {
            Some(h) => if table.owns(pid) {
                Ok(h)
            } else {
                Err("pid "@ + decimal(pid as nat) + " is not owned by current user"@)
            },
            None => Err("no process with pid "@ + decimal(pid as nat)),
        }
    }
}

/// The journal key of a manual command. An application shares the key that the
/// automatic path uses; a bare PID has one of its own.
pub open spec fn target_key(target: TargetModel) -> Seq<char> {
    match target {
        TargetModel::Pid(pid) => "ipc:pid:"@ + decimal(pid as nat),
        TargetModel::App(app) => ascii_lowercase(app),
    }
}

/// What the suspend timer of an application leads to.
#[derive(Clone, Copy, Debug, PartialEq, Eq, Structural)]
pub enum TimerStep {
    /// Nothing.
    Ignore,
    /// The timer runs on.
    Rescheduled,
    /// The process tree is to be expanded, and the guards checked.
    Expand,
}

/// Whether an application is suspended.
pub open spec fn suspended(s: AppState) -> bool {
    s is Frozen || s is Throttled
}

impl EngineModel {
    /// The power source that counts: the forced one, else the detected one.
    pub open spec fn source(self) -> PowerSource {
        match self.forced {
            Some(s) => s,
            None => self.power,
        }
    }

    /// Whether applications are to be managed.
    pub open spec fn manages(self) -> bool {
        self.enabled && match self.source() {
            PowerSource::Ac => self.config.defaults.mode.ac is Enable,
            PowerSource::Battery => self.config.defaults.mode.battery is Enable,
            PowerSource::Unknown => true,
        }
    }

    /// Whether an application is tracked.
    pub open spec fn tracks(self, key: Seq<char>) -> bool {
        self.reg.apps.contains_key(key)
    }

    /// A tracked application.
    pub open spec fn app(self, key: Seq<char>) -> AppModel {
        self.reg.apps[key]
    }

    /// With one application replaced.
    pub open spec fn with_app(self, key: Seq<char>, a: AppModel) -> EngineModel {
        EngineModel { reg: self.reg.with_app(key, a), ..self }
    }

    /// With other counters.
    pub open spec fn with_metrics(self, metrics: Metrics) -> EngineModel {
        EngineModel { metrics, ..self }
    }

    /// The write that a change of the journal owes.
    pub open spec fn owes(self, p: Pending) -> Pending {
        if self.in_memory {
            Pending::Nothing
        } else {
            p
        }
    }

    /// Whether a message on a topic may be logged.
    pub open spec fn may_log(self, topic: Topic, now: Nanos) -> bool {
        allowed(self.seen, LOG_SUPPRESSION_WINDOW, topic, now)
    }

    /// After a message on a topic was due: it is logged, or it is counted as
    /// suppressed.
    pub open spec fn logged(self, topic: Topic, now: Nanos) -> EngineModel {
        let seen = after_asking(self.seen, LOG_SUPPRESSION_WINDOW, topic, now);
        if self.may_log(topic, now) {
            EngineModel { seen, notices: self.notices.push(topic), ..self }
        } else {
            EngineModel {
                seen,
                metrics: Metrics {
                    warns_suppressed_total: bumped(self.metrics.warns_suppressed_total, 1),
                    ..self.metrics
                },
                ..self
            }
        }
    }

    /// After a message about an application was due.
    pub open spec fn logged_app(self, name: Seq<char>, kind: Seq<char>, now: Nanos) -> EngineModel {
        self.logged(Topic { app_id: name, pid: None, kind }, now)
    }

    /// After an operation, with a message where it failed in part.
    pub open spec fn warned(
        self,
        name: Seq<char>,
        kind: Seq<char>,
        report: ReportModel,
        now: Nanos,
    ) -> EngineModel {
        if report.failed.len() > 0 {
            self.logged_app(name, kind, now)
        } else {
            self
        }
    }

    /// After an operation found processes to have exited.
    pub open spec fn absorbed(self, key: Seq<char>, gone: Seq<u32>) -> EngineModel {
        if gone.len() == 0 {
            self
        } else {
            let counted = self.with_metrics(
                Metrics {
                    pids_reaped_total: bumped(self.metrics.pids_reaped_total, gone.len() as u64),
                    ..self.metrics
                },
            );
            if self.tracks(key) {
                counted.with_app(key, self.app(key).without_procs(gone))
            } else {
                counted
            }
        }
    }

    /// After processes of an application were released.
    pub open spec fn retired(self, key: Seq<char>, done: Seq<u32>) -> EngineModel {
        EngineModel {
            journal: retired(self.journal, key, done),
            owed: if self.journal.contains_key(key) {
                self.owes(Pending::Write)
            } else {
                self.owed
            },
            ..self
        }
    }

    /// The processes to act on when an application is released: what the journal
    /// records, which includes descendants the registry never saw, else the
    /// processes that own its windows.
    pub open spec fn recorded_procs(self, key: Seq<char>) -> Seq<ProcessHandle> {
        if procs_in(self.journal, key).len() > 0 {
            procs_in(self.journal, key)
        } else if self.tracks(key) {
            self.app(key).roots
        } else {
            Seq::empty()
        }
    }

    /// The order to release an application.
    pub open spec fn release_order(self, key: Seq<char>, name: Seq<char>) -> ReleaseModel {
        ReleaseModel {
            key,
            name,
            state: self.app(key).state,
            cgroup: self.app(key).cgroup,
            procs: self.recorded_procs(key),
        }
    }

    /// After a suspended application was released, having spent `ms`
    /// milliseconds in `state`.
    ///
    /// Only processes that were released, or that are dead, leave the journal.
    pub open spec fn restored(
        self,
        key: Seq<char>,
        name: Seq<char>,
        state: AppState,
        report: ReportModel,
        ms: u64,
        now: Nanos,
    ) -> EngineModel {
        match state {
            AppState::Frozen => {
                let m = self.warned(name, "thaw-failed"@, report, now).retired(
                    key,
                    report.settled(),
                ).absorbed(key, report.gone);
                m.with_metrics(
                    Metrics {
                        apps_thawed_total: bumped(m.metrics.apps_thawed_total, 1),
                        time_in_frozen_ms: bumped(m.metrics.time_in_frozen_ms, ms),
                        ..m.metrics
                    },
                )
            },
            AppState::Throttled => {
                let m = self.absorbed(key, report.gone);
                m.with_metrics(
                    Metrics {
                        apps_unthrottled_total: bumped(m.metrics.apps_unthrottled_total, 1),
                        time_in_throttled_ms: bumped(m.metrics.time_in_throttled_ms, ms),
                        ..m.metrics
                    },
                )
            },
            _ => self,
        }
    }

    /// After an application entered a state.
    pub open spec fn entered(self, key: Seq<char>, state: AppState, now: Nanos) -> EngineModel {
        if self.tracks(key) {
            self.with_app(key, self.app(key).in_state(state, now))
        } else {
            self
        }
    }

    /// After a suspended application was released and made active.
    pub open spec fn activated(
        self,
        key: Seq<char>,
        name: Seq<char>,
        report: ReportModel,
        now: Nanos,
    ) -> EngineModel {
        if self.tracks(key) {
            let a = self.app(key);
            self.restored(
                key,
                name,
                a.state,
                report,
                millis(span(a.state_since, now)),
                now,
            ).entered(key, AppState::Active, now)
        } else {
            self
        }
    }

    /// After a suspended application was released and left in the background,
    /// without timers.
    pub open spec fn parked(
        self,
        key: Seq<char>,
        name: Seq<char>,
        report: ReportModel,
        now: Nanos,
    ) -> EngineModel {
        let m = self.activated(key, name, report, now);
        if m.tracks(key) {
            m.with_app(key, m.app(key).in_state(AppState::Background, now).without_timers())
        } else {
            m
        }
    }

    /// With the suspend timer of an application set to fire after `delay`.
    pub open spec fn scheduled(self, key: Seq<char>, delay: Nanos, now: Nanos) -> EngineModel {
        if self.tracks(key) {
            self.with_app(
                key,
                AppModel { suspend_timer: Some(later(now, delay)), ..self.app(key) },
            )
        } else {
            self
        }
    }

    /// With the next wake-up of an application set for after `delay`.
    pub open spec fn wake_scheduled(self, key: Seq<char>, delay: Nanos, now: Nanos) -> EngineModel {
        if self.tracks(key) {
            self.with_app(
                key,
                AppModel {
                    maintenance_timer: Some(WakeTimer { due: later(now, delay), sleep: false }),
                    ..self.app(key)
                },
            )
        } else {
            self
        }
    }

    // --- Failed attempts ---

    /// Failed attempts in a row, with one more.
    pub open spec fn attempts(self, key: Seq<char>) -> u32 {
        if self.failures.contains_key(key) {
            if self.failures[key] < u32::MAX {
                (self.failures[key] + 1) as u32
            } else {
                u32::MAX
            }
        } else {
            1
        }
    }

    /// After a suspend attempt that reached nothing.
    ///
    /// Without a real error everything was gone already. Else it is retried
    /// after a growing delay, and given up after the last attempt.
    pub open spec fn suspend_failed(
        self,
        key: Seq<char>,
        name: Seq<char>,
        report: ReportModel,
        now: Nanos,
    ) -> EngineModel {
        if report.failed.len() == 0 {
            self
        } else {
            let n = self.attempts(key);
            let m = EngineModel { failures: self.failures.insert(key, n), ..self }.logged(
                Topic { app_id: name, pid: Some(report.failed[0].0), kind: "suspend-failed"@ },
                now,
            );
            if n >= MAX_SUSPEND_ATTEMPTS {
                if m.tracks(key) {
                    m.with_app(key, AppModel { suspend_timer: None, ..m.app(key) })
                } else {
                    m
                }
            } else {
                m.scheduled(key, retry_delay(n), now)
            }
        }
    }

    // --- Freezing ---

    /// The order to suspend an application.
    pub open spec fn suspend_order(self, key: Seq<char>, procs: Seq<ProcessHandle>) -> SuspendModel {
        SuspendModel { key, name: self.app(key).name, cgroup: self.app(key).cgroup, procs }
    }

    /// How an application is frozen.
    pub open spec fn freeze_method(self, cgroup: Option<String>) -> FreezeMethod {
        if by_cgroup(self.caps, cgroup is Some) {
            FreezeMethod::Cgroup
        } else {
            FreezeMethod::Signal
        }
    }

    /// After the intent to freeze was recorded.
    pub open spec fn freeze_armed(
        self,
        key: Seq<char>,
        method: FreezeMethod,
        cgroup: Option<String>,
        procs: Seq<ProcessHandle>,
    ) -> EngineModel {
        EngineModel {
            journal: armed(self.journal, key, method, cgroup, procs),
            owed: self.owes(Pending::Write),
            ..self
        }
    }

    /// After a freeze of `planned` reached `applied`.
    pub open spec fn freeze_committed(
        self,
        key: Seq<char>,
        planned: Seq<ProcessHandle>,
        applied: Seq<ProcessHandle>,
    ) -> EngineModel {
        EngineModel {
            journal: committed(self.journal, key, planned, applied),
            owed: if self.journal.contains_key(key) {
                self.owes(Pending::Write)
            } else {
                self.owed
            },
            ..self
        }
    }

    /// After a freeze was carried out.
    pub open spec fn frozen(self, order: SuspendModel, report: ReportModel, now: Nanos) -> EngineModel {
        let m = self.absorbed(order.key, report.gone).freeze_committed(
            order.key,
            order.procs,
            report.applied,
        );
        if report.applied.len() == 0 {
            m.suspend_failed(order.key, order.name, report, now)
        } else {
            let counted = EngineModel {
                failures: m.failures.remove(order.key),
                metrics: Metrics {
                    apps_frozen_total: bumped(m.metrics.apps_frozen_total, 1),
                    ..m.metrics
                },
                ..m
            };
            let woken = if counted.tracks(order.key) && counted.app(
                order.key,
            ).policy.maintenance_resume.enabled {
                counted.wake_scheduled(
                    order.key,
                    counted.app(order.key).policy.maintenance_resume.interval,
                    now,
                )
            } else {
                counted
            };
            woken.entered(order.key, AppState::Frozen, now)
        }
    }

    /// After a throttle was carried out.
    pub open spec fn throttled(
        self,
        order: SuspendModel,
        report: ReportModel,
        now: Nanos,
    ) -> EngineModel {
        let m = self.absorbed(order.key, report.gone);
        if report.applied.len() == 0 {
            m.suspend_failed(order.key, order.name, report, now)
        } else {
            EngineModel {
                failures: m.failures.remove(order.key),
                metrics: Metrics {
                    apps_throttled_total: bumped(m.metrics.apps_throttled_total, 1),
                    ..m.metrics
                },
                ..m
            }.entered(order.key, AppState::Throttled, now)
        }
    }

    // --- Focus ---

    /// The desktop file of a window's executable.
    pub open spec fn desktop_file(self, w: WindowInfo) -> Seq<char> {
        match w.executable {
            Some(exe) => if self.desktops.contains_key(exe@) {
                self.desktops[exe@]
            } else {
                Seq::empty()
            },
            None => Seq::empty(),
        }
    }

    /// The policy that the rules give a window.
    pub open spec fn rule_policy(self, w: WindowInfo) -> PolicyModel {
        policy_for(self.config, context_of(w, self.desktop_file(w)))@
    }

    /// The verdict on a window's application.
    pub open spec fn verdict(self, w: WindowInfo, table: ProcessTable) -> Option<Verdict> {
        app_verdict(w.pid, opt_text(w.executable), table)
    }

    /// The policy of a window's application: protection outranks the rules.
    pub open spec fn policy(self, w: WindowInfo, table: ProcessTable) -> PolicyModel {
        match self.verdict(w, table) {
            Some(v) => PolicyModel {
                action: Action::Ignore,
                matched_rule: Some(exemption_text(v)),
                ..self.rule_policy(w)
            },
            None => self.rule_policy(w),
        }
    }

    /// After the policy of a window's application was resolved: a protected one
    /// that the rules would have managed is counted and reported.
    pub open spec fn policy_resolved(
        self,
        name: Seq<char>,
        w: WindowInfo,
        table: ProcessTable,
        now: Nanos,
    ) -> EngineModel {
        if self.verdict(w, table) is Some && !(self.rule_policy(w).action is Ignore) {
            self.with_metrics(
                Metrics {
                    protection_blocks_total: bumped(self.metrics.protection_blocks_total, 1),
                    ..self.metrics
                },
            ).logged_app(name, "protected"@, now)
        } else {
            self
        }
    }

    /// After a new application was tracked.
    pub open spec fn registered(self, w: WindowInfo, table: ProcessTable, now: Nanos) -> EngineModel {
        let name = window_app(w);
        let key = ascii_lowercase(name);
        let m = self.policy_resolved(name, w, table, now);
        EngineModel {
            reg: RegistryModel {
                apps: m.reg.apps.insert(key, fresh_app(name, w, self.policy(w, table), table, now)),
                order: m.reg.order.push(key),
            },
            ..m
        }
    }

    /// After a tracked application was made active because a window of it gained
    /// focus.
    pub open spec fn woken(
        self,
        key: Seq<char>,
        name: Seq<char>,
        report: ReportModel,
        now: Nanos,
    ) -> EngineModel {
        match self.app(key).state {
            AppState::Active => self,
            AppState::Background => {
                let m = self.with_app(
                    key,
                    AppModel { suspend_timer: None, ..self.app(key) }.in_state(
                        AppState::Active,
                        now,
                    ),
                );
                EngineModel { failures: m.failures.remove(key), ..m }
            },
            _ => {
                let m = self.activated(key, name, report, now);
                EngineModel { failures: m.failures.remove(key), ..m }
            },
        }
    }

    /// With a window that gained focus, and the process behind it.
    pub open spec fn attached(self, key: Seq<char>, w: WindowInfo, table: ProcessTable) -> EngineModel {
        let a = self.app(key);
        let b = match w.pid {
            Some(pid) => if pids_of(a.roots).contains(pid) {
                a
            } else {
                a.with_pid(pid, table)
            },
            None => a,
        };
        self.with_app(key, AppModel { window: w, ..b }.with_window(w.window_id))
    }

    /// After the window of a tracked application gained focus.
    pub open spec fn refocused(
        self,
        w: WindowInfo,
        report: ReportModel,
        table: ProcessTable,
        now: Nanos,
    ) -> EngineModel {
        let name = window_app(w);
        let key = ascii_lowercase(name);
        self.woken(key, name, report, now).attached(key, w, table)
    }

    /// The processes of an application that are left when it is focused: those
    /// that releasing it found to have exited are not.
    pub open spec fn roots_left(self, key: Seq<char>, report: ReportModel) -> Seq<ProcessHandle> {
        let a = self.app(key);
        if suspended(a.state) && report.gone.len() > 0 {
            without_pids(a.roots, report.gone)
        } else {
            a.roots
        }
    }

    /// After every active application but `key` lost focus: it is in the
    /// background, and where it is managed its suspend timer runs.
    pub open spec fn others_backgrounded(self, key: Seq<char>, now: Nanos) -> EngineModel {
        EngineModel {
            reg: RegistryModel {
                apps: self.reg.apps.map_entries(
                    |k: Seq<char>, a: AppModel| self.backgrounded(key, k, a, now),
                ),
                ..self.reg
            },
            ..self
        }
    }

    /// What becomes of the application `k` when `key` is focused.
    pub open spec fn backgrounded(
        self,
        key: Seq<char>,
        k: Seq<char>,
        a: AppModel,
        now: Nanos,
    ) -> AppModel {
        if k != key && a.state is Active {
            AppModel {
                suspend_timer: if self.manages() && !(a.policy.action is Ignore) {
                    Some(later(now, a.policy.suspend_delay))
                } else {
                    a.suspend_timer
                },
                ..a
            }.in_state(AppState::Background, now)
        } else {
            a
        }
    }

    /// After a window gained focus. `report` is what releasing its application
    /// achieved, where it was suspended.
    pub open spec fn focused(
        self,
        w: WindowInfo,
        report: ReportModel,
        table: ProcessTable,
        now: Nanos,
    ) -> EngineModel {
        let key = ascii_lowercase(window_app(w));
        let counted = self.with_metrics(
            Metrics {
                focus_changes_total: bumped(self.metrics.focus_changes_total, 1),
                ..self.metrics
            },
        );
        let m = if self.tracks(key) {
            counted.refocused(w, report, table, now)
        } else {
            counted.registered(w, table, now)
        };
        m.others_backgrounded(key, now)
    }

    /// The process that is moved into an application's cgroup when a window
    /// gained focus: that of the window, where it is new to the application.
    pub open spec fn moved_pid(self, w: WindowInfo, report: ReportModel) -> Option<(String, u32)> {
        let key = ascii_lowercase(window_app(w));
        match w.pid {
            Some(pid) => if self.tracks(key) && self.app(key).cgroup is Some && !pids_of(
                self.roots_left(key, report),
            ).contains(pid) {
                Some((self.app(key).cgroup->0, pid))
            } else {
                None
            },
            None => None,
        }
    }

    /// The processes for which a cgroup is made when a window gained focus: those
    /// of a newly tracked application that is managed.
    pub open spec fn cgroup_pids(self, w: WindowInfo, table: ProcessTable, now: Nanos) -> Option<
        Seq<u32>,
    > {
        let name = window_app(w);
        if !self.tracks(ascii_lowercase(name)) && !(self.policy(w, table).action is Ignore) {
            Some(pids_of(fresh_app(name, w, self.policy(w, table), table, now).roots))
        } else {
            None
        }
    }

    // --- Pre-thaw ---

    /// The orders to release those of `keys` whose application `pick` selects.
    pub open spec fn orders_for(
        self,
        keys: Seq<Seq<char>>,
        pick: spec_fn(AppModel) -> bool,
    ) -> Seq<ReleaseModel>
        decreases keys.len(),
    {
        if keys.len() == 0 {
            Seq::empty()
        } else {
            let before = self.orders_for(keys.drop_last(), pick);
            let k = keys.last();
            if pick(self.app(k)) {
                before.push(self.release_order(k, self.app(k).name))
            } else {
                before
            }
        }
    }

    /// The applications that a switch to a workspace releases: the frozen ones
    /// whose window is there.
    pub open spec fn workspace_orders(self, desktop: u32) -> Seq<ReleaseModel> {
        if self.manages() {
            self.orders_for(
                self.reg.order,
                |a: AppModel|
                    a.state is Frozen && a.window.desktop is Some && a.window.desktop->0.shows_on(
                        desktop,
                    ),
            )
        } else {
            Seq::empty()
        }
    }

    /// The applications that a request to activate a window could release: the
    /// frozen ones that have it.
    pub open spec fn activation_orders(self, window_id: u64) -> Seq<ReleaseModel> {
        if self.manages() {
            self.orders_for(
                self.reg.order,
                |a: AppModel| a.state is Frozen && a.window_ids.contains(window_id),
            )
        } else {
            Seq::empty()
        }
    }

    /// After a frozen application was released ahead of use: it is in the
    /// background, and will be suspended again after its delay.
    pub open spec fn pre_thawed(self, order: ReleaseModel, report: ReportModel, now: Nanos) -> EngineModel {
        let m = self.parked(order.key, order.name, report, now);
        if self.tracks(order.key) {
            m.scheduled(order.key, self.app(order.key).policy.suspend_delay, now)
        } else {
            m
        }
    }

    // --- Suspend timer ---

    /// With the suspend timers that are due switched off.
    pub open spec fn timers_taken(self, now: Nanos) -> EngineModel {
        EngineModel {
            reg: RegistryModel {
                apps: self.reg.apps.map_entries(|k: Seq<char>, a: AppModel| a.timers_taken(now)),
                ..self.reg
            },
            ..self
        }
    }

    /// What the suspend timer of an application leads to.
    pub open spec fn timer_step(self, key: Seq<char>, now: Nanos) -> TimerStep {
        if !self.tracks(key) {
            TimerStep::Ignore
        } else {
            let a = self.app(key);
            if a.in_grace(now) || a.policy.action is Ignore {
                TimerStep::Ignore
            } else if span(a.state_since, now) < a.policy.min_suspend {
                TimerStep::Rescheduled
            } else {
                TimerStep::Expand
            }
        }
    }

    /// After the suspend timer of an application fired: where it has not been in
    /// the background long enough, the timer runs for the rest.
    pub open spec fn timer_fired(self, key: Seq<char>, now: Nanos) -> EngineModel {
        if self.timer_step(key, now) is Rescheduled {
            let a = self.app(key);
            self.scheduled(
                key,
                (a.policy.min_suspend - span(a.state_since, now)) as u128,
                now,
            )
        } else {
            self
        }
    }

    /// After protected processes were left out of a suspend.
    pub open spec fn protected_excluded(self, name: Seq<char>, count: nat, now: Nanos) -> EngineModel {
        if count == 0 {
            self
        } else {
            self.with_metrics(
                Metrics {
                    protection_blocks_total: bumped(
                        self.metrics.protection_blocks_total,
                        count as u64,
                    ),
                    ..self.metrics
                },
            ).logged_app(name, "protected-descendants"@, now)
        }
    }

    /// After the guards were checked, before a suspend.
    pub open spec fn suspend_decided(
        self,
        key: Seq<char>,
        procs: Seq<ProcessHandle>,
        guard: GuardResult,
        now: Nanos,
    ) -> EngineModel {
        if !self.tracks(key) {
            self
        } else if guard is Block {
            self.with_metrics(
                Metrics {
                    guard_blocks_total: bumped(self.metrics.guard_blocks_total, 1),
                    ..self.metrics
                },
            ).scheduled(key, RETRY_INTERVAL, now)
        } else if self.freezes(key) && procs.len() > 0 {
            let a = self.app(key);
            self.freeze_armed(key, self.freeze_method(a.cgroup), a.cgroup, procs)
        } else {
            self
        }
    }

    /// Whether an application may be suspended now: it is in the background, and
    /// is managed.
    pub open spec fn suspendable(self, key: Seq<char>) -> bool {
        self.tracks(key) && self.app(key).state is Background && self.manages()
    }

    /// Whether a suspend freezes an application.
    pub open spec fn freezes(self, key: Seq<char>) -> bool {
        self.suspendable(key) && self.app(key).policy.action is Freeze
    }

    /// Whether a suspend throttles an application.
    pub open spec fn throttles(self, key: Seq<char>) -> bool {
        self.suspendable(key) && self.app(key).policy.action is Throttle
    }

    // --- Maintenance ---

    /// After a frozen application was thawed for a while. Its record stays: a
    /// crash before it is frozen again must leave it recoverable.
    pub open spec fn maintenance_woken(
        self,
        order: ReleaseModel,
        report: ReportModel,
        now: Nanos,
    ) -> EngineModel {
        let m = self.warned(order.name, "maintenance-thaw"@, report, now);
        let ms = if m.tracks(order.key) {
            millis(span(m.app(order.key).state_since, now))
        } else {
            0
        };
        let n = m.with_metrics(
            Metrics {
                time_in_frozen_ms: bumped(m.metrics.time_in_frozen_ms, ms),
                apps_thawed_total: bumped(m.metrics.apps_thawed_total, 1),
                ..m.metrics
            },
        );
        if n.tracks(order.key) {
            let a = n.app(order.key);
            n.with_app(
                order.key,
                AppModel {
                    state_since: now,
                    maintenance_timer: Some(
                        WakeTimer {
                            due: later(now, a.policy.maintenance_resume.duration),
                            sleep: true,
                        },
                    ),
                    ..a
                },
            )
        } else {
            n
        }
    }

    /// After a frozen application was frozen again.
    pub open spec fn maintenance_slept(
        self,
        order: SuspendModel,
        report: ReportModel,
        now: Nanos,
    ) -> EngineModel {
        let m = self.warned(order.name, "maintenance-freeze"@, report, now);
        let n = m.with_metrics(
            Metrics { apps_frozen_total: bumped(m.metrics.apps_frozen_total, 1), ..m.metrics },
        );
        if n.tracks(order.key) {
            n.wake_scheduled(
                order.key,
                n.app(order.key).policy.maintenance_resume.interval,
                now,
            )
        } else {
            n
        }
    }

    // --- Starting management ---

    /// After management was switched on: the suspend timers of the applications
    /// in the background run.
    pub open spec fn started(self, now: Nanos) -> EngineModel {
        EngineModel {
            reg: RegistryModel {
                apps: self.reg.apps.map_entries(|k: Seq<char>, a: AppModel| a.started(now)),
                ..self.reg
            },
            ..self
        }
    }

    // --- Configuration and power ---

    /// After the policy of a tracked application was resolved anew.
    pub open spec fn rematched(self, key: Seq<char>, table: ProcessTable, now: Nanos) -> EngineModel {
        let a = self.app(key);
        self.policy_resolved(a.name, a.window, table, now).with_app(
            key,
            a.rematched(self.policy(a.window, table), now),
        )
    }

    /// After the policies of several applications were resolved anew, in order.
    pub open spec fn rematched_all(
        self,
        keys: Seq<Seq<char>>,
        table: ProcessTable,
        now: Nanos,
    ) -> EngineModel
        decreases keys.len(),
    {
        if keys.len() == 0 {
            self
        } else {
            self.rematched_all(keys.drop_last(), table, now).rematched(keys.last(), table, now)
        }
    }

    /// After a new configuration was accepted: the policies follow it.
    pub open spec fn reloaded(self, config: Config, table: ProcessTable, now: Nanos) -> EngineModel {
        EngineModel {
            config,
            enabled: config.defaults.enabled,
            metrics: Metrics {
                config_reloads_total: bumped(self.metrics.config_reloads_total, 1),
                ..self.metrics
            },
            ..self
        }.rematched_all(self.reg.order, table, now)
    }

    /// The suspended applications whose policy does not suspend them so any
    /// more.
    pub open spec fn mismatched_orders(self) -> Seq<ReleaseModel> {
        self.orders_for(self.reg.order, |a: AppModel| mismatched(a.state, a.policy.action))
    }

    /// After an application was released because its policy changed: it is in
    /// the background, and where it is still managed its suspend timer runs.
    pub open spec fn rematch_released(
        self,
        order: ReleaseModel,
        report: ReportModel,
        now: Nanos,
    ) -> EngineModel {
        let m = self.parked(order.key, order.name, report, now);
        if self.tracks(order.key) && !(self.app(order.key).policy.action is Ignore) {
            m.scheduled(order.key, self.app(order.key).policy.suspend_delay, now)
        } else {
            m
        }
    }

    /// The orders to release everything that is suspended.
    pub open spec fn suspended_orders(self) -> Seq<ReleaseModel> {
        self.orders_for(self.reg.order, |a: AppModel| suspended(a.state))
    }

    /// After it was settled whether applications are managed, having been so
    /// (`was`) or not.
    pub open spec fn settled(self, was: bool, now: Nanos) -> EngineModel {
        if self.manages() && !was {
            self.started(now)
        } else {
            self
        }
    }

    /// What is released where applications are not managed.
    pub open spec fn unmanaged_orders(self) -> Seq<ReleaseModel> {
        if self.manages() {
            Seq::empty()
        } else {
            self.suspended_orders()
        }
    }

    /// After several applications were released, in order.
    pub open spec fn activated_all(
        self,
        orders: Seq<ReleaseModel>,
        reports: Seq<ReportModel>,
        now: Nanos,
    ) -> EngineModel
        decreases orders.len(),
    {
        if orders.len() == 0 || reports.len() != orders.len() {
            self
        } else {
            self.activated_all(orders.drop_last(), reports.drop_last(), now).activated(
                orders.last().key,
                orders.last().name,
                reports.last(),
                now,
            )
        }
    }

    /// With all timers off.
    pub open spec fn quiet(self) -> EngineModel {
        EngineModel {
            reg: RegistryModel {
                apps: self.reg.apps.map_entries(|k: Seq<char>, a: AppModel| a.without_timers()),
                ..self.reg
            },
            ..self
        }
    }

    /// After recorded processes of several entries were released: only those
    /// that were resumed, or that are dead, leave the journal.
    pub open spec fn released_all(
        self,
        keys: Seq<Seq<char>>,
        done: Seq<Seq<u32>>,
    ) -> EngineModel
        decreases keys.len(),
    {
        if keys.len() == 0 || done.len() != keys.len() {
            self
        } else {
            self.released_all(keys.drop_last(), done.drop_last()).retired(keys.last(), done.last())
        }
    }

    /// With the journal's file deleted where nothing is recorded any more.
    pub open spec fn tidied(self) -> EngineModel {
        if self.journal == Map::<Seq<char>, JournalRecord>::empty() {
            EngineModel { owed: self.owes(Pending::Delete), ..self }
        } else {
            self
        }
    }

    // --- Reconciliation ---

    /// Whether a tick starts a sweep: none is running, and there is something to
    /// check.
    pub open spec fn sweeps(self) -> bool {
        !self.in_flight && (self.reg.order.len() > 0 || self.journal.dom().len() > 0)
    }

    /// Whether the owners of bus names are to be collected.
    pub open spec fn refresh_due(self, now: Nanos) -> bool {
        self.dbus_check && (self.last_refresh is None || span(self.last_refresh->0, now)
            >= self.dbus_refresh_interval)
    }

    /// After a reconcile tick.
    pub open spec fn ticked(self, now: Nanos) -> EngineModel {
        EngineModel {
            metrics: Metrics {
                reconcile_ticks_total: bumped(self.metrics.reconcile_ticks_total, 1),
                ..self.metrics
            },
            in_flight: self.in_flight || self.sweeps(),
            last_refresh: if self.refresh_due(now) {
                Some(now)
            } else {
                self.last_refresh
            },
            ..self
        }
    }

    /// After recorded processes were found to have exited, with the entries
    /// counted that are left with none.
    pub open spec fn journal_swept(self, keys: Seq<Seq<char>>, dead: Seq<Seq<u32>>) -> EngineModel {
        if keys.len() == 0 {
            self
        } else {
            let m = self.released_all(keys, dead);
            let dropped = if m.journal.dom().len() <= self.journal.dom().len() {
                (self.journal.dom().len() - m.journal.dom().len()) as nat
            } else {
                0
            };
            m.with_metrics(
                Metrics {
                    journal_stale_dropped_total: bumped(
                        m.metrics.journal_stale_dropped_total,
                        dropped as u64,
                    ),
                    ..m.metrics
                },
            )
        }
    }

    /// After processes of an application were found to have exited. An
    /// application that is left with none is dropped; its journal record stays,
    /// as descendants may still be stopped.
    pub open spec fn reaped(self, key: Seq<char>, pids: Seq<u32>) -> EngineModel {
        if !self.tracks(key) {
            self
        } else {
            let m = self.with_app(key, self.app(key).without_procs(pids)).with_metrics(
                Metrics {
                    pids_reaped_total: bumped(self.metrics.pids_reaped_total, pids.len() as u64),
                    ..self.metrics
                },
            );
            if m.app(key).defunct() {
                EngineModel {
                    reg: RegistryModel {
                        apps: m.reg.apps.remove(key),
                        order: without_key(m.reg.order, key),
                    },
                    metrics: Metrics {
                        apps_removed_stale_total: bumped(m.metrics.apps_removed_stale_total, 1),
                        ..m.metrics
                    },
                    failures: m.failures.remove(key),
                    seen: forgotten(m.seen, m.app(key).name),
                    ..m
                }
            } else {
                m
            }
        }
    }

    /// After processes of several applications were found to have exited.
    pub open spec fn reaped_all(self, keys: Seq<Seq<char>>, pids: Seq<Seq<u32>>) -> EngineModel
        decreases keys.len(),
    {
        if keys.len() == 0 || pids.len() != keys.len() {
            self
        } else {
            self.reaped_all(keys.drop_last(), pids.drop_last()).reaped(keys.last(), pids.last())
        }
    }

    /// The cgroups of the applications that are dropped when processes of
    /// several applications are found to have exited.
    pub open spec fn reaped_cgroups(self, keys: Seq<Seq<char>>, pids: Seq<Seq<u32>>) -> Seq<String>
        decreases keys.len(),
    {
        if keys.len() == 0 || pids.len() != keys.len() {
            Seq::empty()
        } else {
            let m = self.reaped_all(keys.drop_last(), pids.drop_last());
            let before = self.reaped_cgroups(keys.drop_last(), pids.drop_last());
            let k = keys.last();
            if m.tracks(k) && m.app(k).without_procs(pids.last()).defunct() && m.app(
                k,
            ).cgroup is Some {
                before.push(m.app(k).cgroup->0)
            } else {
                before
            }
        }
    }

    // --- Requests ---

    /// What is reported of an application.
    pub open spec fn info(self, key: Seq<char>, table: ProcessTable, now: Nanos) -> InfoModel {
        let a = self.app(key);
        InfoModel {
            app_id: a.name,
            state: a.state,
            pids: pids_of(a.roots),
            executable: opt_text(a.window.executable),
            wm_class: opt_text(a.window.wm_class),
            window_title: opt_text(a.window.title),
            profile: a.policy.matched_profile,
            rule_id: a.policy.matched_rule,
            state_since_secs: whole_secs(span(a.state_since, now)),
            protected: match self.verdict(a.window, table) {
                Some(v) => Some(exemption_text(v)),
                None => None,
            },
        }
    }

    /// How many of `keys` are protected applications.
    pub open spec fn protected_count(self, keys: Seq<Seq<char>>, table: ProcessTable) -> nat
        decreases keys.len(),
    {
        if keys.len() == 0 {
            0
        } else {
            self.protected_count(keys.drop_last(), table) + if self.verdict(
                self.app(keys.last()).window,
                table,
            ) is Some {
                1nat
            } else {
                0nat
            }
        }
    }

    /// The processes that a manual command applies to, or why it applies to
    /// none.
    pub open spec fn target_procs(self, target: TargetModel, table: ProcessTable) -> Result<
        Seq<ProcessHandle>,
        Seq<char>,
    > {
        match target {
            TargetModel::Pid(pid) => match ipc_pid(pid, table) {
                Ok(h) => Ok(seq![h]),
                Err(e) => Err(e),
            },
            TargetModel::App(app) => {
                let procs = self.recorded_procs(ascii_lowercase(app));
                if procs.len() == 0 {
                    Err("no tracked application named '"@ + app + "'"@)
                } else {
                    Ok(resumable(procs, table))
                }
            },
        }
    }

    /// Those of the processes of a manual freeze that may be suspended. They
    /// were named by the user, so only the built-in list applies.
    pub open spec fn manual_procs(self, procs: Seq<ProcessHandle>, table: ProcessTable) -> Seq<
        ProcessHandle,
    > {
        unprotected(self.owners, pids_of(procs), procs, table)
    }

    /// Why a manual freeze reaches nothing.
    pub open spec fn manual_refusal(self, procs: Seq<ProcessHandle>, table: ProcessTable) -> Seq<
        char,
    > {
        let s = spared(self.owners, pids_of(procs), procs, table);
        if s.len() > 0 {
            verdict_text(s[0].1)
        } else {
            "no live processes"@
        }
    }

    /// After a manual freeze was planned: it is recorded, or, where nothing may
    /// be suspended, counted as refused.
    pub open spec fn manual_planned(
        self,
        target: TargetModel,
        procs: Seq<ProcessHandle>,
        table: ProcessTable,
    ) -> EngineModel {
        if self.manual_procs(procs, table).len() == 0 {
            self.with_metrics(
                Metrics {
                    protection_blocks_total: bumped(self.metrics.protection_blocks_total, 1),
                    ..self.metrics
                },
            )
        } else {
            self.freeze_armed(
                target_key(target),
                FreezeMethod::Signal,
                None,
                self.manual_procs(procs, table),
            )
        }
    }

    /// After a manual thaw: what was released leaves the journal, and an
    /// application is in the background.
    pub open spec fn manual_thawed(
        self,
        target: TargetModel,
        done: Seq<u32>,
        now: Nanos,
    ) -> EngineModel {
        let m = self.retired(target_key(target), done);
        match target {
            TargetModel::Pid(_) => m,
            TargetModel::App(app) => m.entered(ascii_lowercase(app), AppState::Background, now),
        }
    }

    /// With every suspended application in the background, without timers.
    pub open spec fn all_backgrounded(self, now: Nanos) -> EngineModel {
        EngineModel {
            reg: RegistryModel {
                apps: self.reg.apps.map_entries(|k: Seq<char>, a: AppModel| a.laid_off(now)),
                ..self.reg
            },
            ..self
        }
    }

    // --- Closed windows ---

    /// The order to release an application whose last window closes. Its entry
    /// goes with the window, so only what the journal records is released.
    pub open spec fn close_order(self, window_id: u64) -> Option<ReleaseModel> {
        match self.reg.closing(window_id) {
            Some(key) => if suspended(self.app(key).state) {
                Some(
                    ReleaseModel {
                        key,
                        name: self.app(key).name,
                        state: self.app(key).state,
                        cgroup: self.app(key).cgroup,
                        procs: procs_in(self.journal, key),
                    },
                )
            } else {
                None
            },
            None => None,
        }
    }

    /// After a window closed. An application without windows is dropped, with
    /// its failed attempts and its logged messages.
    pub open spec fn window_closed(
        self,
        window_id: u64,
        report: ReportModel,
        now: Nanos,
    ) -> EngineModel {
        let closed = EngineModel { reg: self.reg.without_window(window_id), ..self };
        match self.reg.closing(window_id) {
            Some(key) => {
                let a = self.app(key);
                let m = closed.restored(
                    key,
                    a.name,
                    a.state,
                    report,
                    millis(span(a.state_since, now)),
                    now,
                );
                EngineModel {
                    failures: m.failures.remove(key),
                    seen: forgotten(m.seen, a.name),
                    ..m
                }
            },
            None => closed,
        }
    }

    /// After an application got its cgroup.
    pub open spec fn grouped(self, key: Seq<char>, path: String) -> EngineModel {
        if self.tracks(key) {
            self.with_app(key, AppModel { cgroup: Some(path), ..self.app(key) })
        } else {
            self
        }
    }
}

/// Whether an application is suspended otherwise than its policy has it.
pub open spec fn mismatched(state: AppState, action: Action) -> bool {
    match state {
        AppState::Frozen => !(action is Freeze),
        AppState::Throttled => !(action is Throttle),
        _ => false,
    }
}

/// The delay before attempt `n + 1`: it doubles from attempt to attempt, up to a
/// limit.
pub open spec fn retry_delay(n: u32) -> Nanos {
    let d = RETRY_INTERVAL * vstd::arithmetic::power2::pow2((n - 1) as nat);
    if d <= MAX_RETRY_INTERVAL {
        d as u128
    } else {
        MAX_RETRY_INTERVAL
    }
}

} // verus!
