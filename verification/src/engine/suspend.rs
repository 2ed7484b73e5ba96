//! Suspend and maintenance timers.
use vstd::prelude::*;

use crate::assoc::lemma_take_contains;
use crate::config::{Action, GuardsConfig, ThrottleParams};
use crate::engine::model::{EngineModel, TimerStep};
use crate::engine::rate_limit::LogKey;
use crate::engine::{Engine, ReleaseOrder, SuspendOrder, RETRY_INTERVAL};
use crate::guards::GuardResult;
use crate::metrics::bump;
use crate::state::app_entry::{due, wake_due, AppModel, WakeTimer};
use crate::state::machine::AppState;
use crate::state::process_set::copy_handles;
use crate::state::registry::RegistryModel;
use crate::system::apply::{pids_of, ApplyReport};
use crate::system::process::{ProcessHandle, ProcessTable};
use crate::system::protection::{spared, spared_view, unprotected};
use crate::text::opt_text;
use crate::time::{as_millis, deadline, elapsed, later, Nanos};

verus! {

/// A timer of an application that has fired.
#[derive(Debug)]
pub enum TimerEvent {
    /// The application is to be suspended.
    Suspend { key: String },
    /// The frozen application is to be woken for a while.
    MaintenanceWake { key: String },
    /// It is to go back to sleep.
    MaintenanceSleep { key: String },
}

/// What is to be done with an application whose guards were checked.
#[derive(Debug)]
pub enum SuspendStep {
    /// Nothing.
    Skip,
    /// A guard blocked; it is tried again later.
    Blocked,
    /// Freeze it, once the journal is on disk.
    Freeze(SuspendOrder),
    /// Throttle it.
    Throttle(SuspendOrder),
}

/// The earlier of two deadlines.
pub open spec fn sooner(a: Option<Nanos>, b: Option<Nanos>) -> Option<Nanos> {
    match (a, b) {
        (Some(x), Some(y)) => Some(
            if x <= y {
                x
            } else {
                y
            },
        ),
        (Some(x), None) => Some(x),
        (None, y) => y,
    }
}

/// The earliest deadline of a list of applications.
pub open spec fn earliest(apps: Map<Seq<char>, AppModel>, keys: Seq<Seq<char>>) -> Option<Nanos>
    decreases keys.len(),
{
    if keys.len() == 0 {
        None
    } else {
        let a = apps[keys.last()];
        sooner(
            sooner(earliest(apps, keys.drop_last()), a.suspend_timer),
            wake_due(a.maintenance_timer),
        )
    }
}

fn min_deadline(a: Option<Nanos>, b: Option<Nanos>) -> (r: Option<Nanos>)
    ensures
        r == sooner(a, b),
{
    match (a, b) {
        (Some(x), Some(y)) => Some(
            if x <= y {
                x
            } else {
                y
            },
        ),
        (Some(x), None) => Some(x),
        (None, y) => y,
    }
}

fn wake_deadline(timer: Option<WakeTimer>) -> (r: Option<Nanos>)
    ensures
        r == wake_due(timer),
{
    match timer {
        Some(t) => Some(t.due),
        None => None,
    }
}

/// What an event says.
pub ghost enum EventModel {
    Suspend(Seq<char>),
    MaintenanceWake(Seq<char>),
    MaintenanceSleep(Seq<char>),
}

impl View for TimerEvent {
    type V = EventModel;

    open spec fn view(&self) -> EventModel {
        match self {
            TimerEvent::Suspend { key } => EventModel::Suspend(key@),
            TimerEvent::MaintenanceWake { key } => EventModel::MaintenanceWake(key@),
            TimerEvent::MaintenanceSleep { key } => EventModel::MaintenanceSleep(key@),
        }
    }
}

/// The events of the timers that are due.
pub open spec fn due_events(
    apps: Map<Seq<char>, AppModel>,
    keys: Seq<Seq<char>>,
    now: Nanos,
) -> Seq<EventModel>
    decreases keys.len(),
{
    if keys.len() == 0 {
        Seq::empty()
    } else {
        let k = keys.last();
        let before = due_events(apps, keys.drop_last(), now);
        let mid = if due(apps[k].suspend_timer, now) {
            before.push(EventModel::Suspend(k))
        } else {
            before
        };
        if due(wake_due(apps[k].maintenance_timer), now) {
            if apps[k].maintenance_timer->0.sleep {
                mid.push(EventModel::MaintenanceSleep(k))
            } else {
                mid.push(EventModel::MaintenanceWake(k))
            }
        } else {
            mid
        }
    }
}

/// The views of a list of events.
pub open spec fn event_views(v: Seq<TimerEvent>) -> Seq<EventModel> {
    v.map_values(|e: TimerEvent| e@)
}

fn is_due(timer: Option<Nanos>, now: Nanos) -> (r: bool)
    ensures
        r == due(timer, now),
{
    match timer {
        Some(t) => t <= now,
        None => false,
    }
}

impl Engine {
    /// When the next timer fires.
    pub fn next_deadline(&self) -> (r: Option<Nanos>)
        requires
            self.wf(),
        ensures
            r == earliest(self@.reg.apps, self@.reg.order),
    {
        let ghost order = self@.reg.order;
        let mut best: Option<Nanos> = None;
        let mut i: usize = 0;
        proof {
            assert(order.take(0) =~= Seq::empty());
        }
        while i < self.registry.len()
            invariant
                i <= order.len(),
                order == self@.reg.order,
                self.wf(),
                best == earliest(self@.reg.apps, order.take(i as int)),
            decreases order.len() - i,
        {
            let entry = self.registry.entry_at(i);
            proof {
                assert(order.take(i + 1).drop_last() =~= order.take(i as int));
            }
            best = min_deadline(
                min_deadline(best, entry.suspend_timer()),
                wake_deadline(entry.maintenance_timer()),
            );
            i = i + 1;
        }
        proof {
            assert(order.take(order.len() as int) =~= order);
        }
        best
    }

    /// Takes the timers that are due: they are switched off, and their events
    /// returned.
    pub fn take_due_timers(&mut self, now: Nanos) -> (r: Vec<TimerEvent>)
        requires
            old(self).wf(),
        ensures
            final(self).wf(),
            final(self)@ == old(self)@.timers_taken(now),
            event_views(r@) == due_events(old(self)@.reg.apps, old(self)@.reg.order, now),
    {
        let ghost m0 = self@;
        let keys = self.registry.keys();
        let ghost order = self@.reg.order;
        let mut out: Vec<TimerEvent> = Vec::new();
        let mut i: usize = 0;
        proof {
            self.registry.lemma_sound();
            assert(order.take(0) =~= Seq::empty());
            assert(event_views(out@) =~= Seq::empty());
        }
        while i < keys.len()
            invariant
                i <= keys@.len(),
                self.wf(),
                order == m0.reg.order,
                m0.reg.sound(),
                keys@.map_values(|s: String| s@) == order,
                self@ == (EngineModel {
                    reg: RegistryModel { apps: self@.reg.apps, ..m0.reg },
                    ..m0
                }),
                self@.reg.apps.dom() == m0.reg.apps.dom(),
                forall|k: Seq<char>| #[trigger]
                    self@.reg.apps.contains_key(k) ==> self@.reg.apps[k] == (if order.take(
                        i as int,
                    ).contains(k) {
                        m0.reg.apps[k].timers_taken(now)
                    } else {
                        m0.reg.apps[k]
                    }),
                event_views(out@) == due_events(m0.reg.apps, order.take(i as int), now),
            decreases keys@.len() - i,
        {
            let ghost apps = self@.reg.apps;
            let ghost k0 = order[i as int];
            let key = &keys[i];
            proof {
                assert(keys@.map_values(|s: String| s@)[i as int] == key@);
                lemma_take_contains(order, i as int);
                assert(order.contains(k0));
                assert(m0.reg.apps.contains_key(k0));
                assert(apps.contains_key(k0));
                assert(order.take(i + 1).drop_last() =~= order.take(i as int));
                assert(!order.take(i as int).contains(k0)) by {
                    if order.take(i as int).contains(k0) {
                        let j = choose|j: int| 0 <= j < i && order.take(i as int)[j] == k0;
                        assert(order[j] == order[i as int]);
                    }
                }
            }
            if let Some(entry) = self.registry.get_mut(key) {
                if is_due(entry.suspend_timer(), now) {
                    let ghost before = out@;
                    entry.cancel_suspend_timer();
                    let e = TimerEvent::Suspend { key: key.clone() };
                    let ghost v = e@;
                    out.push(e);
                    proof {
                        assert(event_views(out@) =~= event_views(before).push(v));
                    }
                }
                if let Some(timer) = entry.maintenance_timer() {
                    if timer.due <= now {
                        let ghost before = out@;
                        entry.cancel_maintenance_timer();
                        let e = if timer.sleep {
                            TimerEvent::MaintenanceSleep { key: key.clone() }
                        } else {
                            TimerEvent::MaintenanceWake { key: key.clone() }
                        };
                        let ghost v = e@;
                        out.push(e);
                        proof {
                            assert(event_views(out@) =~= event_views(before).push(v));
                        }
                    }
                }
            }
            proof {
                assert(self@.reg.apps =~= apps.insert(k0, m0.reg.apps[k0].timers_taken(now)));
                assert(self@.reg.apps.dom() =~= m0.reg.apps.dom());
            }
            i = i + 1;
        }
        proof {
            assert(order.take(order.len() as int) =~= order);
            assert(self@.reg.apps =~= m0.timers_taken(now).reg.apps);
        }
        out
    }

    /// Handles a suspend timer that fired.
    ///
    /// Nothing happens in the grace period, and to an application that is not
    /// managed. One that has not been in the background long enough gets the
    /// rest of its time. Else its process tree is to be expanded.
    pub fn handle_suspend_timer(&mut self, key: &str, now: Nanos) -> (r: TimerStep)
        requires
            old(self).wf(),
        ensures
            final(self).wf(),
            r == old(self)@.timer_step(key@, now),
            final(self)@ == old(self)@.timer_fired(key@, now),
    {
        let remaining = match self.registry.get(key) {
            None => {
                return TimerStep::Ignore;
            },
            Some(entry) => {
                if entry.in_resume_grace(now) || matches!(entry.policy().action, Action::Ignore) {
                    return TimerStep::Ignore;
                }
                let spent = elapsed(entry.state_since(), now);
                let least = entry.policy().min_suspend;
                if spent >= least {
                    return TimerStep::Expand;
                }
                least - spent
            },
        };
        self.schedule_suspend(key, remaining, now);
        TimerStep::Rescheduled
    }

    /// The processes whose tree is expanded before an application is suspended.
    pub fn root_pids(&self, key: &str) -> (r: Vec<u32>)
        requires
            self.wf(),
        ensures
            r@ == (if self@.tracks(key@) {
                pids_of(self@.app(key@).roots)
            } else {
                Seq::empty()
            }),
    {
        match self.registry.get(key) {
            Some(entry) => entry.pids(),
            None => Vec::new(),
        }
    }

    /// Leaves protected processes out of an expanded process tree.
    ///
    /// Session infrastructure that happens to sit below an application in the
    /// tree must not be stopped with it.
    pub fn exclude_protected(
        &mut self,
        key: &str,
        expanded: &Vec<ProcessHandle>,
        table: &ProcessTable,
        now: Nanos,
    ) -> (r: Vec<ProcessHandle>)
        requires
            old(self).wf(),
            old(self)@.tracks(key@),
        ensures
            final(self).wf(),
            r@ == unprotected(
                old(self)@.owners,
                pids_of(old(self)@.app(key@).roots),
                expanded@,
                *table,
            ),
            final(self)@ == old(self)@.protected_excluded(
                old(self)@.app(key@).name,
                spared(
                    old(self)@.owners,
                    pids_of(old(self)@.app(key@).roots),
                    expanded@,
                    *table,
                ).len(),
                now,
            ),
    {
        let ghost m = self@;
        let (name, own) = match self.registry.get(key) {
            Some(entry) => (entry.app_id().as_str().to_owned(), entry.pids()),
            None => {
                return Vec::new();
            },
        };
        let (allowed, protected) = self.protection.partition(expanded, &own, table);
        proof {
            assert(spared_view(protected@).len() == protected@.len());
        }
        if protected.len() > 0 {
            self.metrics.protection_blocks_total = bump(
                self.metrics.protection_blocks_total,
                protected.len() as u64,
            );
            self.log(LogKey::app(&name, "protected-descendants"), now);
        }
        allowed
    }

    /// How hard an application is throttled.
    pub fn throttle_params(&self, key: &str) -> (r: Option<ThrottleParams>)
        requires
            self.wf(),
        ensures
            match r {
                Some(p) => {
                    &&& self@.tracks(key@)
                    &&& p.nice == self@.app(key@).policy.nice
                    &&& p.cpu_weight == self@.app(key@).policy.cpu_weight
                    &&& opt_text(p.cpu_quota) == self@.app(key@).policy.cpu_quota
                },
                None => !self@.tracks(key@),
            },
    {
        match self.registry.get(key) {
            Some(entry) => Some(entry.policy().throttle_params()),
            None => None,
        }
    }

    /// The guards of an application, and whether its window is fullscreen.
    pub fn guard_inputs(&self, key: &str) -> (r: Option<(GuardsConfig, bool)>)
        requires
            self.wf(),
        ensures
            match r {
                Some(g) => self@.tracks(key@) && g.0 == self@.app(key@).policy.guards && g.1
                    == self@.app(key@).window.is_fullscreen,
                None => !self@.tracks(key@),
            },
    {
        match self.registry.get(key) {
            Some(entry) => Some((entry.policy().guards, entry.window_info().is_fullscreen)),
            None => None,
        }
    }

    /// Decides, with the verdict of the guards, what happens to an application
    /// whose suspend timer fired. `procs` are its processes that may be
    /// suspended.
    ///
    /// A freeze is recorded here, before it is ordered. The application may have
    /// been focused meanwhile, or management switched off: then nothing happens.
    pub fn decide_suspend(
        &mut self,
        key: &str,
        procs: &Vec<ProcessHandle>,
        guard: GuardResult,
        now: Nanos,
    ) -> (r: SuspendStep)
        requires
            old(self).wf(),
        ensures
            final(self).wf(),
            final(self)@ == old(self)@.suspend_decided(key@, procs@, guard, now),
            match r {
                SuspendStep::Blocked => old(self)@.tracks(key@) && guard is Block,
                SuspendStep::Freeze(o) => {
                    &&& guard is Allow && old(self)@.freezes(key@) && procs@.len() > 0
                    &&& o@ == old(self)@.suspend_order(key@, procs@)
                },
                SuspendStep::Throttle(o) => {
                    &&& guard is Allow && old(self)@.throttles(key@)
                    &&& o@ == old(self)@.suspend_order(key@, procs@)
                },
                SuspendStep::Skip => {
                    &&& !(old(self)@.tracks(key@) && guard is Block)
                    &&& !(guard is Allow && old(self)@.freezes(key@) && procs@.len() > 0)
                    &&& !(guard is Allow && old(self)@.throttles(key@))
                },
            },
    {
        let (state, action, name, cgroup_path) = match self.registry.get(key) {
            Some(entry) => (
                entry.state(),
                entry.policy().action,
                entry.app_id().as_str().to_owned(),
                entry.cgroup_path_buf(),
            ),
            None => {
                return SuspendStep::Skip;
            },
        };
        if guard != GuardResult::Allow {
            self.metrics.guard_blocks_total = bump(self.metrics.guard_blocks_total, 1);
            self.schedule_suspend(key, RETRY_INTERVAL, now);
            return SuspendStep::Blocked;
        }
        if state != AppState::Background || !self.should_manage() {
            return SuspendStep::Skip;
        }
        match action {
            Action::Freeze => match self.arm_freeze(key, procs) {
                Some(order) => SuspendStep::Freeze(order),
                None => SuspendStep::Skip,
            },
            Action::Throttle => SuspendStep::Throttle(
                SuspendOrder { key: key.to_owned(), name, cgroup_path, procs: copy_handles(procs) },
            ),
            Action::Ignore => SuspendStep::Skip,
        }
    }

    // --- Maintenance ---

    /// The order to thaw a frozen application for a while.
    pub fn maintenance_wake(&self, key: &str) -> (r: Option<ReleaseOrder>)
        requires
            self.wf(),
        ensures
            match r {
                Some(o) => self@.tracks(key@) && self@.app(key@).state is Frozen && o@
                    == self@.release_order(key@, self@.app(key@).name),
                None => !(self@.tracks(key@) && self@.app(key@).state is Frozen),
            },
    {
        match self.registry.get(key) {
            Some(entry) => if entry.state() == AppState::Frozen {
                self.release_order_for(key, entry.app_id().as_str())
            } else {
                None
            },
            None => None,
        }
    }

    /// Takes the report on a thaw for a while, and schedules the next freeze.
    pub fn finish_maintenance_wake(&mut self, order: &ReleaseOrder, report: &ApplyReport, now: Nanos)
        requires
            old(self).wf(),
        ensures
            final(self).wf(),
            final(self)@ == old(self)@.maintenance_woken(order@, report@, now),
    {
        self.warn_partial_failure(&order.name, "maintenance-thaw", report, now);
        let ghost m = self@;
        let ms = match self.registry.get(&order.key) {
            Some(entry) => as_millis(elapsed(entry.state_since(), now)),
            None => 0,
        };
        self.metrics.time_in_frozen_ms = bump(self.metrics.time_in_frozen_ms, ms);
        self.metrics.apps_thawed_total = bump(self.metrics.apps_thawed_total, 1);
        let ghost n = self@;
        if let Some(entry) = self.registry.get_mut(&order.key) {
            entry.reset_state_since(now);
            let duration = entry.policy().maintenance_resume.duration;
            entry.set_maintenance_timer(WakeTimer { due: deadline(now, duration), sleep: true });
        }
        proof {
            if n.tracks(order@.key) {
                let a = n.app(order@.key);
                let b = AppModel {
                    state_since: now,
                    maintenance_timer: Some(
                        WakeTimer {
                            due: later(now, a.policy.maintenance_resume.duration),
                            sleep: true,
                        },
                    ),
                    ..a
                };
                assert(self@ == n.with_app(order@.key, b));
            } else {
                assert(self@ == n);
            }
        }
    }

    /// The order to freeze an application again that was thawed for a while.
    ///
    /// Its record already describes these processes as suspended.
    pub fn maintenance_sleep(&self, key: &str) -> (r: Option<SuspendOrder>)
        requires
            self.wf(),
        ensures
            match r {
                Some(o) => self@.tracks(key@) && self@.app(key@).state is Frozen && o@
                    == self@.suspend_order(key@, self@.recorded_procs(key@)),
                None => !(self@.tracks(key@) && self@.app(key@).state is Frozen),
            },
    {
        match self.registry.get(key) {
            Some(entry) => if entry.state() == AppState::Frozen {
                Some(
                    SuspendOrder {
                        key: key.to_owned(),
                        name: entry.app_id().as_str().to_owned(),
                        cgroup_path: entry.cgroup_path_buf(),
                        procs: self.recorded_procs_for(key),
                    },
                )
            } else {
                None
            },
            None => None,
        }
    }

    /// Takes the report on that freeze, and schedules the next wake.
    pub fn finish_maintenance_sleep(
        &mut self,
        order: &SuspendOrder,
        report: &ApplyReport,
        now: Nanos,
    )
        requires
            old(self).wf(),
        ensures
            final(self).wf(),
            final(self)@ == old(self)@.maintenance_slept(order@, report@, now),
    {
        self.warn_partial_failure(&order.name, "maintenance-freeze", report, now);
        self.metrics.apps_frozen_total = bump(self.metrics.apps_frozen_total, 1);
        self.start_maintenance_timer(&order.key, now);
    }

    fn start_maintenance_timer(&mut self, key: &str, now: Nanos)
        requires
            old(self).wf(),
        ensures
            final(self).wf(),
            final(self)@ == (if old(self)@.tracks(key@) {
                old(self)@.wake_scheduled(
                    key@,
                    old(self)@.app(key@).policy.maintenance_resume.interval,
                    now,
                )
            } else {
                old(self)@
            }),
    {
        let interval = match self.registry.get(key) {
            Some(entry) => entry.policy().maintenance_resume.interval,
            None => {
                return;
            },
        };
        self.schedule_maintenance(key, interval, now);
    }

    /// Starts the suspend timers of the applications in the background.
    pub(crate) fn start_management(&mut self, now: Nanos)
        requires
            old(self).wf(),
        ensures
            final(self).wf(),
            final(self)@ == old(self)@.started(now),
    {
        let ghost m0 = self@;
        let keys = self.registry.keys();
        let ghost order = self@.reg.order;
        let mut i: usize = 0;
        proof {
            self.registry.lemma_sound();
        }
        while i < keys.len()
            invariant
                i <= keys@.len(),
                self.wf(),
                order == m0.reg.order,
                m0.reg.sound(),
                keys@.map_values(|s: String| s@) == order,
                self@ == (EngineModel {
                    reg: RegistryModel { apps: self@.reg.apps, ..m0.reg },
                    ..m0
                }),
                self@.reg.apps.dom() == m0.reg.apps.dom(),
                forall|k: Seq<char>| #[trigger]
                    self@.reg.apps.contains_key(k) ==> self@.reg.apps[k] == (if order.take(
                        i as int,
                    ).contains(k) {
                        m0.reg.apps[k].started(now)
                    } else {
                        m0.reg.apps[k]
                    }),
            decreases keys@.len() - i,
        {
            let ghost apps = self@.reg.apps;
            let ghost k0 = order[i as int];
            let key = &keys[i];
            proof {
                assert(keys@.map_values(|s: String| s@)[i as int] == key@);
                lemma_take_contains(order, i as int);
                assert(order.contains(k0));
                assert(m0.reg.apps.contains_key(k0));
                assert(apps.contains_key(k0));
                assert(!order.take(i as int).contains(k0)) by {
                    if order.take(i as int).contains(k0) {
                        let j = choose|j: int| 0 <= j < i && order.take(i as int)[j] == k0;
                        assert(order[j] == order[i as int]);
                    }
                }
            }
            if let Some(entry) = self.registry.get_mut(key) {
                if entry.state() == AppState::Background && !matches!(
                    entry.policy().action,
                    Action::Ignore
                ) {
                    let delay = entry.policy().suspend_delay;
                    entry.set_suspend_timer(deadline(now, delay));
                }
            }
            proof {
                assert(self@.reg.apps =~= apps.insert(k0, m0.reg.apps[k0].started(now)));
                assert(self@.reg.apps.dom() =~= m0.reg.apps.dom());
            }
            i = i + 1;
        }
        proof {
            assert(order.take(order.len() as int) =~= order);
            assert(self@.reg.apps =~= m0.started(now).reg.apps);
        }
    }
}

} // verus!
