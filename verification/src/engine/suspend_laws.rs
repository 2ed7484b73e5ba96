//! What a suspend does, and what it leaves alone.
use vstd::prelude::*;

use crate::engine::model::{EngineModel, ReleaseModel, SuspendModel};
use crate::engine::rate_limit::Topic;
use crate::engine::suspend::{due_events, earliest, EventModel};
use crate::engine::{MAX_SUSPEND_ATTEMPTS, RETRY_INTERVAL};
use crate::guards::GuardResult;
use crate::metrics::{bumped, Metrics};
use crate::state::app_entry::{AppModel, WakeTimer};
use crate::state::journal::{commit_keeps_the_rest, merged_holds_both, procs_in};
use crate::state::process_set::{lemma_filter_contains, without_pids};
use crate::system::apply::ReportModel;
use crate::system::process::ProcessHandle;
use crate::time::{later, millis, span, Nanos};

verus! {

/// Whether two states of the engine agree in all that events on applications leave
/// alone: the settings, the owners of bus names, the power source and the course of
/// reconciliation.
pub open spec fn same_surroundings(m: EngineModel, r: EngineModel) -> bool {
    &&& r.config == m.config
    &&& r.caps == m.caps
    &&& r.in_memory == m.in_memory
    &&& r.journal_path == m.journal_path
    &&& r.owners == m.owners
    &&& r.desktops == m.desktops
    &&& r.enabled == m.enabled
    &&& r.power == m.power
    &&& r.forced == m.forced
    &&& r.start == m.start
    &&& r.reconcile_interval == m.reconcile_interval
    &&& r.dbus_check == m.dbus_check
    &&& r.dbus_refresh_interval == m.dbus_refresh_interval
    &&& r.last_refresh == m.last_refresh
    &&& r.in_flight == m.in_flight
}

/// Whether two states track the same applications, in the same order, and differ at
/// most in the application `key`.
pub open spec fn others_untouched(m: EngineModel, r: EngineModel, key: Seq<char>) -> bool {
    &&& r.reg.order == m.reg.order
    &&& forall|k: Seq<char>| #[trigger] r.reg.apps.contains_key(k) <==> m.reg.apps.contains_key(k)
    &&& forall|k: Seq<char>| k != key ==> #[trigger] r.reg.apps[k] == m.reg.apps[k]
}

// --- Guards ---

/// A guard postpones a suspend, it does not cancel it: after a block the suspend
/// timer of the application runs anew, and nothing else of any application changed.
/// The block is counted; nothing is recorded.
pub proof fn guard_postpones_the_suspend(
    m: EngineModel,
    key: Seq<char>,
    procs: Seq<ProcessHandle>,
    guard: GuardResult,
    now: Nanos,
)
    requires
        m.tracks(key),
        guard is Block,
    ensures
        ({
            let r = m.suspend_decided(key, procs, guard, now);
            &&& r.app(key).suspend_timer == Some(later(now, RETRY_INTERVAL))
            &&& r.app(key) == (AppModel {
                suspend_timer: Some(later(now, RETRY_INTERVAL)),
                ..m.app(key)
            })
            &&& others_untouched(m, r, key)
            &&& same_surroundings(m, r)
            &&& r.journal == m.journal
            &&& r.owed == m.owed
            &&& r.failures == m.failures
            &&& r.notices == m.notices
            &&& r.seen == m.seen
            &&& r.metrics == (Metrics {
                guard_blocks_total: bumped(m.metrics.guard_blocks_total, 1),
                ..m.metrics
            })
        }),
{
}

/// A suspend that the guards allow is recorded where it is to freeze something, with
/// the way and the cgroup by which the application is frozen; no application changes
/// before it was carried out. Where nothing is to be frozen, nothing changes at all.
pub proof fn allowed_freeze_is_recorded(
    m: EngineModel,
    key: Seq<char>,
    procs: Seq<ProcessHandle>,
    guard: GuardResult,
    now: Nanos,
)
    requires
        guard is Allow,
    ensures
        ({
            let r = m.suspend_decided(key, procs, guard, now);
            let a = m.app(key);
            let freezes = m.tracks(key) && a.state is Background && a.policy.action is Freeze
                && m.manages() && procs.len() > 0;
            &&& !freezes ==> r == m
            &&& freezes ==> {
                &&& r.reg == m.reg
                &&& same_surroundings(m, r)
                &&& r.metrics == m.metrics
                &&& r.failures == m.failures
                &&& r.notices == m.notices
                &&& r.journal.contains_key(key)
                &&& r.journal[key].cgroup_path == a.cgroup
                &&& r.journal[key].method is Cgroup <==> a.cgroup is Some && m.caps.freezer
                &&& r.journal[key].method is Signal <==> !(a.cgroup is Some && m.caps.freezer)
                &&& forall|h: ProcessHandle| #[trigger]
                    r.journal[key].procs.contains(h) <==> procs.contains(h) || procs_in(
                        m.journal,
                        key,
                    ).contains(h)
                &&& forall|k: Seq<char>|
                    k != key ==> (#[trigger] r.journal.contains_key(k) <==> m.journal.contains_key(
                        k,
                    )) && r.journal[k] == m.journal[k]
                &&& r.owed is Nothing <==> m.in_memory
                &&& !m.in_memory ==> r.owed is Write
            }
        }),
{
    merged_holds_both(procs_in(m.journal, key), procs);
}

/// Which applications a suspend freezes and which it throttles: those in the
/// background whose policy says so, while applications are managed. No application
/// is both.
pub proof fn suspends_by_policy(m: EngineModel, key: Seq<char>)
    ensures
        m.freezes(key) <==> m.tracks(key) && m.app(key).state is Background && m.manages() && m.app(
            key,
        ).policy.action is Freeze,
        m.throttles(key) <==> m.tracks(key) && m.app(key).state is Background && m.manages()
            && m.app(key).policy.action is Throttle,
        !(m.freezes(key) && m.throttles(key)),
{
}

/// A suspend is ordered for the application itself: under its key, in its name, in
/// its cgroup, and for all the processes that were found.
pub proof fn suspend_order_names_the_application(
    m: EngineModel,
    key: Seq<char>,
    procs: Seq<ProcessHandle>,
)
    ensures
        m.suspend_order(key, procs).key == key,
        m.suspend_order(key, procs).name == m.app(key).name,
        m.suspend_order(key, procs).cgroup == m.app(key).cgroup,
        m.suspend_order(key, procs).procs == procs,
{
}

// --- What comes of a suspend ---

/// What is left of a list of processes without those that are gone.
pub proof fn lemma_roots_without(procs: Seq<ProcessHandle>, gone: Seq<u32>)
    ensures
        forall|h: ProcessHandle| #[trigger]
            without_pids(procs, gone).contains(h) <==> procs.contains(h) && !gone.contains(h.pid),
{
    lemma_filter_contains(procs, |h: ProcessHandle| !gone.contains(h.pid));
}

/// A freeze that reached something leaves the application frozen from now on,
/// without the processes that are gone; it wakes after its interval where it is to
/// be woken at all. Its failed attempts are forgotten, and the freeze is counted.
pub proof fn freeze_takes_effect(
    m: EngineModel,
    order: SuspendModel,
    report: ReportModel,
    now: Nanos,
)
    requires
        m.tracks(order.key),
        report.applied.len() > 0,
    ensures
        ({
            let r = m.frozen(order, report, now);
            let a = m.app(order.key);
            let b = r.app(order.key);
            &&& b.state is Frozen
            &&& b.state_since == now
            &&& b.last_active == a.last_active
            &&& b.name == a.name
            &&& b.policy == a.policy
            &&& b.cgroup == a.cgroup
            &&& b.window == a.window
            &&& b.window_ids == a.window_ids
            &&& b.populated == a.populated
            &&& b.suspend_timer == a.suspend_timer
            &&& forall|h: ProcessHandle| #[trigger]
                b.roots.contains(h) <==> a.roots.contains(h) && !report.gone.contains(h.pid)
            &&& a.policy.maintenance_resume.enabled ==> b.maintenance_timer == Some(
                WakeTimer { due: later(now, a.policy.maintenance_resume.interval), sleep: false },
            )
            &&& !a.policy.maintenance_resume.enabled ==> b.maintenance_timer == a.maintenance_timer
            &&& others_untouched(m, r, order.key)
            &&& same_surroundings(m, r)
            &&& r.failures == m.failures.remove(order.key)
            &&& r.notices == m.notices
            &&& r.metrics.apps_frozen_total == bumped(m.metrics.apps_frozen_total, 1)
            &&& r.metrics.apps_throttled_total == m.metrics.apps_throttled_total
            &&& report.gone.len() == 0 ==> b.roots == a.roots && r.metrics.pids_reaped_total
                == m.metrics.pids_reaped_total
            &&& 0 < report.gone.len() <= u64::MAX ==> r.metrics.pids_reaped_total == bumped(
                m.metrics.pids_reaped_total,
                report.gone.len() as u64,
            )
            &&& !m.in_memory && m.journal.contains_key(order.key) ==> r.owed is Write
        }),
{
    lemma_roots_without(m.app(order.key).roots, report.gone);
}

/// After a freeze, of the processes it was about exactly those that it reached stay
/// recorded; no other record changes.
pub proof fn freeze_narrows_its_record(
    m: EngineModel,
    order: SuspendModel,
    report: ReportModel,
    now: Nanos,
)
    ensures
        ({
            let r = m.frozen(order, report, now);
            &&& forall|h: ProcessHandle| #[trigger]
                procs_in(r.journal, order.key).contains(h) <==> procs_in(
                    m.journal,
                    order.key,
                ).contains(h) && (report.applied.contains(h) || !order.procs.contains(h))
            &&& forall|k: Seq<char>|
                k != order.key ==> #[trigger] procs_in(r.journal, k) == procs_in(m.journal, k)
        }),
{
    commit_keeps_the_rest(m.journal, order.key, order.procs, report.applied);
}

/// A throttle that reached something leaves the application throttled from now on,
/// without the processes that are gone. Nothing is recorded, since a throttled
/// process still runs.
pub proof fn throttle_takes_effect(
    m: EngineModel,
    order: SuspendModel,
    report: ReportModel,
    now: Nanos,
)
    requires
        m.tracks(order.key),
        report.applied.len() > 0,
    ensures
        ({
            let r = m.throttled(order, report, now);
            let a = m.app(order.key);
            let b = r.app(order.key);
            &&& b.state is Throttled
            &&& b.state_since == now
            &&& b.last_active == a.last_active
            &&& b.name == a.name
            &&& b.policy == a.policy
            &&& b.cgroup == a.cgroup
            &&& b.window == a.window
            &&& b.window_ids == a.window_ids
            &&& b.populated == a.populated
            &&& b.suspend_timer == a.suspend_timer
            &&& b.maintenance_timer == a.maintenance_timer
            &&& forall|h: ProcessHandle| #[trigger]
                b.roots.contains(h) <==> a.roots.contains(h) && !report.gone.contains(h.pid)
            &&& others_untouched(m, r, order.key)
            &&& same_surroundings(m, r)
            &&& r.journal == m.journal
            &&& r.owed == m.owed
            &&& r.failures == m.failures.remove(order.key)
            &&& r.notices == m.notices
            &&& r.metrics.apps_throttled_total == bumped(m.metrics.apps_throttled_total, 1)
            &&& r.metrics.apps_frozen_total == m.metrics.apps_frozen_total
            &&& report.gone.len() == 0 ==> b.roots == a.roots && r.metrics.pids_reaped_total
                == m.metrics.pids_reaped_total
            &&& 0 < report.gone.len() <= u64::MAX ==> r.metrics.pids_reaped_total == bumped(
                m.metrics.pids_reaped_total,
                report.gone.len() as u64,
            )
        }),
{
    lemma_roots_without(m.app(order.key).roots, report.gone);
}

/// A suspend that reached nothing leaves the application as it was, but for the
/// processes that are gone and for the time of the next attempt; it is not counted
/// as a suspend.
pub proof fn a_vain_suspend_changes_no_state(
    m: EngineModel,
    order: SuspendModel,
    report: ReportModel,
    now: Nanos,
)
    requires
        m.tracks(order.key),
        report.applied.len() == 0,
    ensures
        ({
            let f = m.frozen(order, report, now);
            let t = m.throttled(order, report, now);
            let a = m.app(order.key);
            &&& f.app(order.key) == t.app(order.key)
            &&& f.app(order.key).state == a.state
            &&& f.app(order.key).state_since == a.state_since
            &&& f.app(order.key).maintenance_timer == a.maintenance_timer
            &&& forall|h: ProcessHandle| #[trigger]
                f.app(order.key).roots.contains(h) <==> a.roots.contains(h)
                    && !report.gone.contains(h.pid)
            &&& report.failed.len() == 0 ==> f.app(order.key).suspend_timer == a.suspend_timer
            &&& report.failed.len() == 0 ==> f.failures == m.failures && t.failures == m.failures
            &&& report.failed.len() > 0 ==> f.failures == m.failures.insert(
                order.key,
                m.attempts(order.key),
            ) && t.failures == f.failures
            &&& others_untouched(m, f, order.key)
            &&& others_untouched(m, t, order.key)
            &&& f.metrics.apps_frozen_total == m.metrics.apps_frozen_total
            &&& t.metrics.apps_throttled_total == m.metrics.apps_throttled_total
        }),
{
    lemma_roots_without(m.app(order.key).roots, report.gone);
}

/// Failed attempts are counted one by one, from one on.
pub proof fn failures_add_up(m: EngineModel, key: Seq<char>)
    ensures
        !m.failures.contains_key(key) ==> m.attempts(key) == 1,
        m.failures.contains_key(key) && m.failures[key] < u32::MAX ==> m.attempts(key)
            == m.failures[key] + 1,
        m.failures.contains_key(key) ==> m.attempts(key) >= m.failures[key],
{
}

/// An attempt in which nothing failed is no failure: everything was gone already.
/// One that failed is reported, for the process that failed first, and changes
/// nothing but the time of the next attempt.
pub proof fn failed_suspend_is_reported(
    m: EngineModel,
    key: Seq<char>,
    name: Seq<char>,
    report: ReportModel,
    now: Nanos,
)
    ensures
        ({
            let r = m.suspend_failed(key, name, report, now);
            let topic = Topic {
                app_id: name,
                pid: Some(report.failed[0].0),
                kind: "suspend-failed"@,
            };
            &&& report.failed.len() == 0 ==> r == m
            &&& report.failed.len() > 0 ==> {
                &&& m.may_log(topic, now) ==> r.notices == m.notices.push(topic) && r.metrics
                    == m.metrics
                &&& !m.may_log(topic, now) ==> r.notices == m.notices
                    && r.metrics.warns_suppressed_total == bumped(
                    m.metrics.warns_suppressed_total,
                    1,
                )
                &&& r.failures == m.failures.insert(key, m.attempts(key))
                &&& r.journal == m.journal
                &&& r.owed == m.owed
                &&& same_surroundings(m, r)
                &&& others_untouched(m, r, key)
                &&& m.tracks(key) ==> r.app(key) == (AppModel {
                    suspend_timer: r.app(key).suspend_timer,
                    ..m.app(key)
                })
                &&& m.tracks(key) ==> (r.app(key).suspend_timer is None <==> m.attempts(key)
                    >= MAX_SUSPEND_ATTEMPTS)
            }
        }),
{
}

// --- The suspend timer ---

/// A timer that fires before the application was in the background for as long as
/// its policy demands runs on until it was.
pub proof fn early_timer_runs_on(m: EngineModel, key: Seq<char>, now: Nanos)
    requires
        m.tracks(key),
        !(m.app(key).policy.action is Ignore),
        m.app(key).state_since <= now,
        m.app(key).last_active <= now,
        now - m.app(key).last_active >= m.app(key).policy.resume_grace,
        now - m.app(key).state_since < m.app(key).policy.min_suspend,
        m.app(key).state_since + m.app(key).policy.min_suspend <= u128::MAX,
    ensures
        ({
            let r = m.timer_fired(key, now);
            let a = m.app(key);
            let due = (a.state_since + a.policy.min_suspend) as u128;
            &&& m.timer_step(key, now) is Rescheduled
            &&& r.app(key) == (AppModel { suspend_timer: Some(due), ..a })
            &&& others_untouched(m, r, key)
            &&& same_surroundings(m, r)
            &&& r.journal == m.journal
            &&& r.metrics == m.metrics
            &&& m.timer_step(key, due) is Expand
        }),
{
}

/// A timer leads to a suspend exactly where the application is tracked and managed,
/// its grace period is over, and it has been in its state for long enough. In its
/// grace period, or where it is to be ignored, nothing happens.
pub proof fn timer_leads_to_a_suspend(m: EngineModel, key: Seq<char>, now: Nanos)
    ensures
        m.timer_step(key, now) is Expand <==> {
            &&& m.tracks(key)
            &&& !(m.app(key).policy.action is Ignore)
            &&& span(m.app(key).last_active, now) >= m.app(key).policy.resume_grace
            &&& span(m.app(key).state_since, now) >= m.app(key).policy.min_suspend
        },
        m.timer_step(key, now) is Ignore <==> {
            ||| !m.tracks(key)
            ||| m.app(key).policy.action is Ignore
            ||| span(m.app(key).last_active, now) < m.app(key).policy.resume_grace
        },
        !(m.timer_step(key, now) is Rescheduled) ==> m.timer_fired(key, now) == m,
{
}

/// Whether an application has a timer that is due.
pub open spec fn suspend_is_due(a: AppModel, now: Nanos) -> bool {
    a.suspend_timer matches Some(t) && t <= now
}

/// Whether an application is to be woken, or put back to sleep, by now.
pub open spec fn wake_is_due(a: AppModel, now: Nanos, sleep: bool) -> bool {
    a.maintenance_timer matches Some(t) && t.due <= now && t.sleep == sleep
}

/// Every timer that is due is reported, and no other: for each application its
/// suspend timer, and its maintenance timer as what it is set for.
pub proof fn due_timers_are_reported(
    apps: Map<Seq<char>, AppModel>,
    keys: Seq<Seq<char>>,
    now: Nanos,
)
    ensures
        forall|k: Seq<char>| #[trigger]
            due_events(apps, keys, now).contains(EventModel::Suspend(k)) <==> keys.contains(k)
                && suspend_is_due(apps[k], now),
        forall|k: Seq<char>| #[trigger]
            due_events(apps, keys, now).contains(EventModel::MaintenanceWake(k)) <==> keys.contains(
                k,
            ) && wake_is_due(apps[k], now, false),
        forall|k: Seq<char>| #[trigger]
            due_events(apps, keys, now).contains(EventModel::MaintenanceSleep(k))
                <==> keys.contains(k) && wake_is_due(apps[k], now, true),
    decreases keys.len(),
{
    if keys.len() > 0 {
        let ks = keys.drop_last();
        let last = keys.last();
        let a = apps[last];
        due_timers_are_reported(apps, ks, now);
        assert(keys =~= ks.push(last));
        let before = due_events(apps, ks, now);
        let first = EventModel::Suspend(last);
        let mid = if suspend_is_due(a, now) {
            before.push(first)
        } else {
            before
        };
        let all = due_events(apps, keys, now);
        let second = if a.maintenance_timer is Some && a.maintenance_timer->0.sleep {
            EventModel::MaintenanceSleep(last)
        } else {
            EventModel::MaintenanceWake(last)
        };
        assert(all == (if wake_is_due(a, now, true) || wake_is_due(a, now, false) {
            mid.push(second)
        } else {
            mid
        }));
        assert forall|k: Seq<char>| #[trigger]
            all.contains(EventModel::Suspend(k)) <==> keys.contains(k) && suspend_is_due(
            apps[k],
            now,
        ) by {
            vstd::seq_lib::lemma_seq_contains_after_push(ks, last, k);
            vstd::seq_lib::lemma_seq_contains_after_push(before, first, EventModel::Suspend(k));
            vstd::seq_lib::lemma_seq_contains_after_push(mid, second, EventModel::Suspend(k));
        }
        assert forall|k: Seq<char>| #[trigger]
            all.contains(EventModel::MaintenanceWake(k)) <==> keys.contains(k) && wake_is_due(
            apps[k],
            now,
            false,
        ) by {
            let e = EventModel::MaintenanceWake(k);
            vstd::seq_lib::lemma_seq_contains_after_push(ks, last, k);
            vstd::seq_lib::lemma_seq_contains_after_push(before, first, e);
            vstd::seq_lib::lemma_seq_contains_after_push(mid, second, e);
        }
        assert forall|k: Seq<char>| #[trigger]
            all.contains(EventModel::MaintenanceSleep(k)) <==> keys.contains(k) && wake_is_due(
            apps[k],
            now,
            true,
        ) by {
            let e = EventModel::MaintenanceSleep(k);
            vstd::seq_lib::lemma_seq_contains_after_push(ks, last, k);
            vstd::seq_lib::lemma_seq_contains_after_push(before, first, e);
            vstd::seq_lib::lemma_seq_contains_after_push(mid, second, e);
        }
    }
}

/// Once the timers that are due were taken, none of them is left, and every other
/// runs on; nothing else changes.
pub proof fn taken_timers_are_off(m: EngineModel, now: Nanos, key: Seq<char>)
    requires
        m.tracks(key),
    ensures
        ({
            let r = m.timers_taken(now);
            let a = m.app(key);
            let b = r.app(key);
            &&& r.tracks(key)
            &&& b == (AppModel {
                suspend_timer: b.suspend_timer,
                maintenance_timer: b.maintenance_timer,
                ..a
            })
            &&& suspend_is_due(a, now) ==> b.suspend_timer is None
            &&& !suspend_is_due(a, now) ==> b.suspend_timer == a.suspend_timer
            &&& wake_is_due(a, now, true) || wake_is_due(a, now, false)
                ==> b.maintenance_timer is None
            &&& !wake_is_due(a, now, true) && !wake_is_due(a, now, false) ==> b.maintenance_timer
                == a.maintenance_timer
            &&& !suspend_is_due(b, now)
            &&& r.reg.order == m.reg.order
            &&& forall|k: Seq<char>| #[trigger] r.tracks(k) <==> m.tracks(k)
            &&& same_surroundings(m, r)
            &&& r.journal == m.journal
            &&& r.metrics == m.metrics
            &&& r.failures == m.failures
        }),
{
}

/// The deadlines of an application.
pub open spec fn has_deadline(a: AppModel, t: Nanos) -> bool {
    a.suspend_timer == Some(t) || a.maintenance_timer is Some && a.maintenance_timer->0.due == t
}

/// The next deadline is the earliest there is: no timer fires before it, some timer
/// fires then, and there is none only where no timer runs.
pub proof fn next_deadline_is_the_earliest(
    apps: Map<Seq<char>, AppModel>,
    keys: Seq<Seq<char>>,
)
    ensures
        earliest(apps, keys) is None ==> forall|k: Seq<char>, t: Nanos|
            keys.contains(k) ==> !#[trigger] has_deadline(apps[k], t),
        earliest(apps, keys) matches Some(d) ==> {
            &&& forall|k: Seq<char>, t: Nanos|
                keys.contains(k) && #[trigger] has_deadline(apps[k], t) ==> d <= t
            &&& exists|k: Seq<char>| keys.contains(k) && #[trigger] has_deadline(apps[k], d)
        },
    decreases keys.len(),
{
    if keys.len() > 0 {
        let ks = keys.drop_last();
        let last = keys.last();
        let a = apps[last];
        next_deadline_is_the_earliest(apps, ks);
        assert(keys =~= ks.push(last));
        assert forall|k: Seq<char>| #[trigger]
            keys.contains(k) <==> ks.contains(k) || k == last by {
            vstd::seq_lib::lemma_seq_contains_after_push(ks, last, k);
        }
        let b = earliest(apps, ks);
        let e = earliest(apps, keys);
        if e is Some {
            let d = e->0;
            if b == Some(d) {
                let k = choose|k: Seq<char>| ks.contains(k) && #[trigger] has_deadline(apps[k], d);
                assert(keys.contains(k) && has_deadline(apps[k], d));
            } else {
                assert(keys.contains(last));
                assert(has_deadline(apps[last], d));
            }
            assert forall|k: Seq<char>, t: Nanos|
                keys.contains(k) && #[trigger] has_deadline(apps[k], t) implies d <= t by {
                if k != last {
                    assert(ks.contains(k));
                }
            }
        } else {
            assert forall|k: Seq<char>, t: Nanos| keys.contains(k) implies !#[trigger] has_deadline(
                apps[k],
                t,
            ) by {
                if k != last {
                    assert(ks.contains(k));
                }
            }
        }
    }
}

/// Processes that are left out of a suspend because they are protected are counted,
/// each one, and reported for the application; where there are none nothing changes.
pub proof fn protected_descendants_are_reported(
    m: EngineModel,
    name: Seq<char>,
    count: nat,
    now: Nanos,
)
    requires
        count <= u64::MAX,
    ensures
        ({
            let r = m.protected_excluded(name, count, now);
            let topic = Topic { app_id: name, pid: None, kind: "protected-descendants"@ };
            &&& count == 0 ==> r == m
            &&& count > 0 ==> {
                &&& r.metrics.protection_blocks_total == bumped(
                    m.metrics.protection_blocks_total,
                    count as u64,
                )
                &&& m.may_log(topic, now) ==> r.notices == m.notices.push(topic)
                &&& !m.may_log(topic, now) ==> r.notices == m.notices
                &&& r.reg == m.reg
                &&& r.journal == m.journal
                &&& same_surroundings(m, r)
            }
        }),
{
}

// --- Maintenance ---

/// A frozen application that was woken for a while is put back to sleep after the
/// duration that its policy gives; it stays frozen, from now on.
pub proof fn woken_application_sleeps_again(
    m: EngineModel,
    order: ReleaseModel,
    report: ReportModel,
    now: Nanos,
)
    requires
        m.tracks(order.key),
    ensures
        ({
            let r = m.maintenance_woken(order, report, now);
            let a = m.app(order.key);
            &&& r.app(order.key) == (AppModel {
                state_since: now,
                maintenance_timer: Some(
                    WakeTimer { due: later(now, a.policy.maintenance_resume.duration), sleep: true },
                ),
                ..a
            })
            &&& others_untouched(m, r, order.key)
            &&& same_surroundings(m, r)
            &&& r.journal == m.journal
            &&& r.owed == m.owed
            &&& r.failures == m.failures
            &&& r.metrics.apps_thawed_total == bumped(m.metrics.apps_thawed_total, 1)
            &&& r.metrics.time_in_frozen_ms == bumped(
                m.metrics.time_in_frozen_ms,
                millis(span(a.state_since, now)),
            )
            &&& r.metrics.apps_frozen_total == m.metrics.apps_frozen_total
        }),
{
}

/// A frozen application that was put back to sleep is woken again after the interval
/// that its policy gives; nothing else of it changes.
pub proof fn sleeping_application_wakes_again(
    m: EngineModel,
    order: SuspendModel,
    report: ReportModel,
    now: Nanos,
)
    requires
        m.tracks(order.key),
    ensures
        ({
            let r = m.maintenance_slept(order, report, now);
            let a = m.app(order.key);
            &&& r.app(order.key) == (AppModel {
                maintenance_timer: Some(
                    WakeTimer { due: later(now, a.policy.maintenance_resume.interval), sleep: false },
                ),
                ..a
            })
            &&& others_untouched(m, r, order.key)
            &&& same_surroundings(m, r)
            &&& r.journal == m.journal
            &&& r.owed == m.owed
            &&& r.failures == m.failures
            &&& r.metrics.apps_frozen_total == bumped(m.metrics.apps_frozen_total, 1)
            &&& r.metrics.apps_thawed_total == m.metrics.apps_thawed_total
            &&& r.metrics.time_in_frozen_ms == m.metrics.time_in_frozen_ms
        }),
{
}

/// A maintenance that failed in part is reported for the application; one that did
/// not is not.
pub proof fn failed_maintenance_is_reported(
    m: EngineModel,
    wake: ReleaseModel,
    sleep: SuspendModel,
    report: ReportModel,
    now: Nanos,
)
    ensures
        ({
            let w = m.maintenance_woken(wake, report, now);
            let s = m.maintenance_slept(sleep, report, now);
            let on_wake = Topic { app_id: wake.name, pid: None, kind: "maintenance-thaw"@ };
            let on_sleep = Topic { app_id: sleep.name, pid: None, kind: "maintenance-freeze"@ };
            &&& report.failed.len() == 0 ==> w.notices == m.notices && s.notices == m.notices
            &&& report.failed.len() > 0 && m.may_log(on_wake, now) ==> w.notices == m.notices.push(
                on_wake,
            )
            &&& report.failed.len() > 0 && m.may_log(on_sleep, now) ==> s.notices == m.notices.push(
                on_sleep,
            )
            &&& report.failed.len() > 0 && !m.may_log(on_wake, now) ==> w.notices == m.notices
            &&& report.failed.len() > 0 && !m.may_log(on_sleep, now) ==> s.notices == m.notices
        }),
{
}

// --- Management ---

/// Applications are managed where the switch is on and the mode of the power source
/// that counts allows it. An unknown source counts as allowing it.
pub proof fn management_follows_the_mode(m: EngineModel)
    ensures
        !m.enabled ==> !m.manages(),
        m.enabled && m.source() is Ac ==> (m.manages() <==> m.config.defaults.mode.ac is Enable),
        m.enabled && m.source() is Battery ==> (m.manages()
            <==> m.config.defaults.mode.battery is Enable),
        m.enabled && m.source() is Unknown ==> m.manages(),
{
}

/// A message on a topic is handed out where it may be logged; else it is counted as
/// suppressed. Nothing else changes but what is remembered of messages.
pub proof fn a_message_is_logged_or_counted(m: EngineModel, topic: Topic, now: Nanos)
    ensures
        ({
            let r = m.logged(topic, now);
            &&& m.may_log(topic, now) ==> r.notices == m.notices.push(topic) && r.metrics
                == m.metrics && r.seen.last() == (topic, now)
            &&& !m.may_log(topic, now) ==> r.notices == m.notices && r.metrics == (Metrics {
                warns_suppressed_total: bumped(m.metrics.warns_suppressed_total, 1),
                ..m.metrics
            })
            &&& r.reg == m.reg
            &&& r.journal == m.journal
            &&& r.owed == m.owed
            &&& r.failures == m.failures
            &&& same_surroundings(m, r)
        }),
{
}

/// A message is kept back exactly where one on its topic was logged less than five
/// minutes ago.
pub proof fn repeats_are_kept_back_for_minutes(m: EngineModel, topic: Topic, now: Nanos)
    requires
        m.seen.len() <= crate::engine::rate_limit::MAX_ENTRIES,
    ensures
        !m.may_log(topic, now) <==> exists|i: int|
            0 <= i < m.seen.len() && (#[trigger] m.seen[i]).0 == topic && span(m.seen[i].1, now)
                < 300_000_000_000,
{
    crate::engine::rate_limit::only_recent_repeats_are_suppressed(
        m.seen,
        crate::engine::LOG_SUPPRESSION_WINDOW,
        topic,
        now,
    );
}

/// A suspend is tried again ten seconds after a block or a first failure, five minutes
/// after a late one at most, and given up with the fifth failure in a row.
pub proof fn attempts_are_bounded(n: u32)
    ensures
        RETRY_INTERVAL == 10 * crate::time::SECOND,
        crate::engine::MAX_RETRY_INTERVAL == 300 * crate::time::SECOND,
        MAX_SUSPEND_ATTEMPTS == 5,
        crate::engine::model::retry_delay(1) == 10 * crate::time::SECOND,
{
    vstd::arithmetic::power2::lemma2_to64();
}

/// An application is suspended where it is frozen or throttled, and in no other state.
pub proof fn suspended_is_frozen_or_throttled(s: crate::state::machine::AppState)
    ensures
        s is Frozen || s is Throttled ==> crate::engine::model::suspended(s),
        s is Active || s is Background ==> !crate::engine::model::suspended(s),
{
}

} // verus!
