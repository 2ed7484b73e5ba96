//! What holds of the engine as a whole.
use vstd::arithmetic::power2::{lemma_pow2_pos, lemma_pow2_unfold, pow2};
use vstd::prelude::*;

use crate::config::Config;
use crate::desktop::window::WindowInfo;
use crate::engine::model::{
    mismatched, retry_delay, suspended, target_key, EngineModel, ReleaseModel, SuspendModel,
};
use crate::engine::{MAX_RETRY_INTERVAL, MAX_SUSPEND_ATTEMPTS, RETRY_INTERVAL};
use crate::guards::GuardResult;
use crate::ipc::protocol::TargetModel;
use crate::state::app_entry::{window_app, AppModel};
use crate::state::journal::{
    arm_keeps_and_records, commit_keeps_the_rest, freeze_then_thaw_leaves_nothing, journal_map,
    procs_in, recorded, recorded_procs, resumable, retire_keeps_the_unreleased, retired,
    what_is_written_is_recovered, FreezeMethod, JournalEntry, JournalRecord,
};
use crate::state::machine::AppState;
use crate::state::registry::closing_takes_the_owner;
use crate::system::apply::{pids_of, ReportModel};
use crate::system::power::PowerSource;
use crate::system::process::{ProcessHandle, ProcessTable};
use crate::text::ascii_lowercase;
use crate::time::{later, span, Nanos};

verus! {

// --- What a release changes ---

proof fn lemma_restored(
    m: EngineModel,
    key: Seq<char>,
    name: Seq<char>,
    state: AppState,
    report: ReportModel,
    ms: u64,
    now: Nanos,
)
    ensures
        ({
            let r = m.restored(key, name, state, report, ms, now);
            &&& r.reg.order == m.reg.order
            &&& r.reg.apps.dom() == m.reg.apps.dom()
            &&& forall|k: Seq<char>| k != key ==> #[trigger] r.reg.apps[k] == m.reg.apps[k]
            &&& m.tracks(key) ==> r.app(key) == (AppModel {
                roots: r.app(key).roots,
                ..m.app(key)
            })
            &&& r.journal == (if state is Frozen {
                retired(m.journal, key, report.settled())
            } else {
                m.journal
            })
        }),
{
    let r = m.restored(key, name, state, report, ms, now);
    assert(r.reg.apps.dom() =~= m.reg.apps.dom());
}

proof fn lemma_activated(
    m: EngineModel,
    key: Seq<char>,
    name: Seq<char>,
    report: ReportModel,
    now: Nanos,
)
    ensures
        ({
            let r = m.activated(key, name, report, now);
            &&& r.reg.order == m.reg.order
            &&& r.reg.apps.dom() == m.reg.apps.dom()
            &&& forall|k: Seq<char>| k != key ==> #[trigger] r.reg.apps[k] == m.reg.apps[k]
            &&& m.tracks(key) ==> r.app(key) == (AppModel {
                roots: r.app(key).roots,
                ..m.app(key)
            }).in_state(AppState::Active, now)
            &&& r.journal == (if m.tracks(key) && m.app(key).state is Frozen {
                retired(m.journal, key, report.settled())
            } else {
                m.journal
            })
        }),
{
    if m.tracks(key) {
        let a = m.app(key);
        let ms = crate::time::millis(span(a.state_since, now));
        lemma_restored(m, key, name, a.state, report, ms, now);
        let r = m.activated(key, name, report, now);
        assert(r.reg.apps.dom() =~= m.reg.apps.dom());
    }
}

proof fn lemma_parked(
    m: EngineModel,
    key: Seq<char>,
    name: Seq<char>,
    report: ReportModel,
    now: Nanos,
)
    ensures
        ({
            let r = m.parked(key, name, report, now);
            &&& r.reg.order == m.reg.order
            &&& r.reg.apps.dom() == m.reg.apps.dom()
            &&& forall|k: Seq<char>| k != key ==> #[trigger] r.reg.apps[k] == m.reg.apps[k]
            &&& m.tracks(key) ==> {
                &&& r.app(key).state is Background
                &&& r.app(key).state_since == now
                &&& r.app(key).suspend_timer is None
                &&& r.app(key).maintenance_timer is None
                &&& r.app(key).policy == m.app(key).policy
            }
        }),
{
    lemma_activated(m, key, name, report, now);
    let r = m.parked(key, name, report, now);
    assert(r.reg.apps.dom() =~= m.reg.apps.dom());
}

// --- Focus ---

/// After a window gained focus its application is active, and no other is.
pub proof fn focus_is_exclusive(
    m: EngineModel,
    w: WindowInfo,
    report: ReportModel,
    table: ProcessTable,
    now: Nanos,
)
    ensures
        ({
            let key = ascii_lowercase(window_app(w));
            let r = m.focused(w, report, table, now);
            &&& r.tracks(key)
            &&& r.app(key).state is Active
            &&& forall|k: Seq<char>| #[trigger] r.tracks(k) <==> k == key || m.tracks(k)
            &&& forall|k: Seq<char>| k != key && #[trigger] r.tracks(k) ==> !(r.app(
                k,
            ).state is Active)
        }),
{
    let key = ascii_lowercase(window_app(w));
    lemma_focused_apps(m, w, report, table, now);
    let r = m.focused(w, report, table, now);
    assert forall|k: Seq<char>| k != key && #[trigger] r.tracks(k) implies !(r.app(
        k,
    ).state is Active) by {
        assert(r.app(k) == m.backgrounded(key, k, m.app(k), now));
    }
}

/// What the applications are after a window gained focus.
pub proof fn lemma_focused_apps(
    m: EngineModel,
    w: WindowInfo,
    report: ReportModel,
    table: ProcessTable,
    now: Nanos,
)
    ensures
        ({
            let key = ascii_lowercase(window_app(w));
            let r = m.focused(w, report, table, now);
            &&& r.manages() == m.manages()
            &&& r.tracks(key)
            &&& r.app(key).state is Active
            &&& m.tracks(key) ==> r.app(key).policy == m.app(key).policy
            &&& m.tracks(key) && !(m.app(key).state is Background) ==> r.app(key).suspend_timer
                == m.app(key).suspend_timer
            &&& m.tracks(key) && m.app(key).state is Background ==> r.app(key).suspend_timer is None
            &&& !m.tracks(key) ==> r.app(key).suspend_timer is None
            &&& forall|k: Seq<char>| #[trigger] r.tracks(k) <==> k == key || m.tracks(k)
            &&& forall|k: Seq<char>| k != key && #[trigger] r.tracks(k) ==> r.app(k)
                == m.backgrounded(key, k, m.app(k), now)
            &&& r.journal == (if m.tracks(key) && m.app(key).state is Frozen {
                retired(m.journal, key, report.settled())
            } else {
                m.journal
            })
        }),
{
    let name = window_app(w);
    let key = ascii_lowercase(name);
    let counted = m.with_metrics(
        crate::metrics::Metrics {
            focus_changes_total: crate::metrics::bumped(m.metrics.focus_changes_total, 1),
            ..m.metrics
        },
    );
    let n = if m.tracks(key) {
        counted.refocused(w, report, table, now)
    } else {
        counted.registered(w, table, now)
    };
    if m.tracks(key) {
        lemma_activated(counted, key, name, report, now);
        let k1 = counted.woken(key, name, report, now);
        assert(k1.tracks(key));
        assert(n.manages() == m.manages());
    } else {
        assert(n.manages() == m.manages());
    }
    let r = m.focused(w, report, table, now);
    assert(r == n.others_backgrounded(key, now));
    assert forall|k: Seq<char>| #[trigger] r.tracks(k) <==> k == key || m.tracks(k) by {
        assert(r.tracks(k) <==> n.tracks(k));
    }
}

/// Focusing an application releases only its own processes from the journal, and
/// of those only the ones that were resumed or are dead.
pub proof fn focus_forgets_only_the_resumed(
    m: EngineModel,
    w: WindowInfo,
    report: ReportModel,
    table: ProcessTable,
    now: Nanos,
    k: Seq<char>,
    h: ProcessHandle,
)
    requires
        procs_in(m.journal, k).contains(h),
        k != ascii_lowercase(window_app(w)) || !report.settled().contains(h.pid),
    ensures
        procs_in(m.focused(w, report, table, now).journal, k).contains(h),
{
    lemma_focused_apps(m, w, report, table, now);
    retire_keeps_the_unreleased(m.journal, ascii_lowercase(window_app(w)), report.settled());
}

// --- Protection and ignored applications ---

/// A protected application is tracked with a policy that leaves it alone, and
/// gets no cgroup.
pub proof fn protected_app_is_left_alone(
    m: EngineModel,
    w: WindowInfo,
    report: ReportModel,
    table: ProcessTable,
    now: Nanos,
)
    requires
        m.verdict(w, table) is Some,
        !m.tracks(ascii_lowercase(window_app(w))),
    ensures
        m.focused(w, report, table, now).app(
            ascii_lowercase(window_app(w)),
        ).policy.action is Ignore,
        m.cgroup_pids(w, table, now) is None,
{
}

/// An application that the policy says to ignore is not suspended: its timer is
/// not started when it loses focus or when management starts, and where one
/// fires it leads to nothing.
pub proof fn ignored_app_is_never_suspended(
    m: EngineModel,
    key: Seq<char>,
    procs: Seq<ProcessHandle>,
    guard: GuardResult,
    focused: Seq<char>,
    now: Nanos,
)
    requires
        m.tracks(key),
        m.app(key).policy.action is Ignore,
    ensures
        m.timer_step(key, now) is Ignore,
        m.timer_fired(key, now) == m,
        !m.freezes(key),
        !m.throttles(key),
        m.suspend_decided(key, procs, guard, now).journal == m.journal,
        m.backgrounded(focused, key, m.app(key), now).suspend_timer == m.app(key).suspend_timer,
        m.app(key).started(now) == m.app(key),
{
}

/// Whether no application that is to be ignored has a suspend timer.
pub open spec fn ignored_are_calm(m: EngineModel) -> bool {
    forall|k: Seq<char>| #[trigger]
        m.tracks(k) && m.app(k).policy.action is Ignore && m.app(k).state is Background ==> m.app(
            k,
        ).suspend_timer is None
}

/// Whether no active application has a suspend timer.
pub open spec fn active_are_calm(m: EngineModel) -> bool {
    forall|k: Seq<char>| #[trigger]
        m.tracks(k) && m.app(k).state is Active ==> m.app(k).suspend_timer is None
}

/// A focus change starts no suspend timer for an ignored application, and
/// leaves none with the focused one unless it was suspended with one.
pub proof fn focus_keeps_the_ignored_calm(
    m: EngineModel,
    w: WindowInfo,
    report: ReportModel,
    table: ProcessTable,
    now: Nanos,
)
    requires
        ignored_are_calm(m),
        active_are_calm(m),
        m.tracks(ascii_lowercase(window_app(w))) && suspended(
            m.app(ascii_lowercase(window_app(w))).state,
        ) ==> m.app(ascii_lowercase(window_app(w))).suspend_timer is None,
    ensures
        ignored_are_calm(m.focused(w, report, table, now)),
        active_are_calm(m.focused(w, report, table, now)),
{
    lemma_focused_apps(m, w, report, table, now);
    let key = ascii_lowercase(window_app(w));
    let r = m.focused(w, report, table, now);
    assert forall|k: Seq<char>| #[trigger]
        r.tracks(k) && r.app(k).policy.action is Ignore && r.app(k).state is Background implies r.app(
        k,
    ).suspend_timer is None by {
        assert(m.tracks(k));
        assert(r.app(k) == m.backgrounded(key, k, m.app(k), now));
    }
    assert forall|k: Seq<char>| #[trigger] r.tracks(k) && r.app(k).state is Active implies r.app(
        k,
    ).suspend_timer is None by {
        if k != key {
            assert(r.app(k) == m.backgrounded(key, k, m.app(k), now));
        }
    }
}

/// Starting management starts no suspend timer for an ignored or an active
/// application.
pub proof fn start_keeps_the_ignored_calm(m: EngineModel, now: Nanos)
    requires
        ignored_are_calm(m),
        active_are_calm(m),
    ensures
        ignored_are_calm(m.started(now)),
        active_are_calm(m.started(now)),
        forall|k: Seq<char>| #[trigger]
            m.tracks(k) && m.app(k).state is Background && !(m.app(k).policy.action is Ignore)
                ==> m.started(now).app(k).suspend_timer == Some(
                later(now, m.app(k).policy.suspend_delay),
            ),
{
    let r = m.started(now);
    assert forall|k: Seq<char>| #[trigger]
        r.tracks(k) && r.app(k).policy.action is Ignore && r.app(k).state is Background implies r.app(
        k,
    ).suspend_timer is None by {
        assert(m.tracks(k));
        assert(r.app(k) == m.app(k).started(now));
    }
    assert forall|k: Seq<char>| #[trigger] r.tracks(k) && r.app(k).state is Active implies r.app(
        k,
    ).suspend_timer is None by {
        assert(m.tracks(k));
        assert(r.app(k) == m.app(k).started(now));
    }
}

// --- Suspending ---

/// A suspend comes only for an application that has been in its state for as
/// long as its policy demands, and that was not active within its grace period.
pub proof fn no_suspend_before_its_time(m: EngineModel, key: Seq<char>, now: Nanos)
    ensures
        m.timer_step(key, now) is Expand ==> {
            &&& m.tracks(key)
            &&& span(m.app(key).state_since, now) >= m.app(key).policy.min_suspend
            &&& span(m.app(key).last_active, now) >= m.app(key).policy.resume_grace
        },
{
}

/// Before an automatic freeze is carried out, every process that it is about is
/// recorded in the journal, nothing recorded is lost, and the write to the file
/// is owed.
pub proof fn freeze_is_recorded_first(
    m: EngineModel,
    key: Seq<char>,
    procs: Seq<ProcessHandle>,
    now: Nanos,
)
    requires
        m.freezes(key),
        procs.len() > 0,
    ensures
        ({
            let r = m.suspend_decided(key, procs, GuardResult::Allow, now);
            &&& forall|h: ProcessHandle| #[trigger]
                procs.contains(h) ==> procs_in(r.journal, key).contains(h)
            &&& forall|k: Seq<char>, h: ProcessHandle| #[trigger]
                procs_in(m.journal, k).contains(h) ==> procs_in(r.journal, k).contains(h)
            &&& !m.in_memory ==> r.owed is Write
        }),
{
    let a = m.app(key);
    arm_keeps_and_records(m.journal, key, m.freeze_method(a.cgroup), a.cgroup, procs);
}

/// A freeze can be undone by whoever finds the file that was written for it: every
/// process that the freeze is about, and every one recorded before, is resumed by
/// recovery where it is still alive and ours.
pub proof fn a_killed_daemon_can_be_recovered_from(
    m: EngineModel,
    key: Seq<char>,
    procs: Seq<ProcessHandle>,
    now: Nanos,
    entries: Seq<JournalEntry>,
    table: ProcessTable,
)
    requires
        m.freezes(key),
        procs.len() > 0,
        journal_map(entries) == m.suspend_decided(key, procs, GuardResult::Allow, now).journal,
        entries.len() == journal_map(entries).dom().len(),
    ensures
        forall|h: ProcessHandle| #[trigger]
            procs.contains(h) && table.alive(h) && table.owns(h.pid) ==> resumable(
                recorded_procs(entries),
                table,
            ).contains(h),
        forall|k: Seq<char>, h: ProcessHandle| #[trigger]
            procs_in(m.journal, k).contains(h) && table.alive(h) && table.owns(h.pid)
                ==> resumable(recorded_procs(entries), table).contains(h),
{
    let r = m.suspend_decided(key, procs, GuardResult::Allow, now);
    freeze_is_recorded_first(m, key, procs, now);
    what_is_written_is_recovered(entries, table);
    assert forall|k: Seq<char>, h: ProcessHandle| #[trigger]
        procs_in(r.journal, k).contains(h) implies recorded(r.journal, h) by {
        assert(r.journal.contains_key(k));
    }
}

/// Before a manual freeze is carried out, every process that it is about is
/// recorded in the journal, nothing recorded is lost, and the write to the file
/// is owed.
pub proof fn manual_freeze_is_recorded_first(
    m: EngineModel,
    target: TargetModel,
    procs: Seq<ProcessHandle>,
    table: ProcessTable,
)
    requires
        m.manual_procs(procs, table).len() > 0,
    ensures
        ({
            let r = m.manual_planned(target, procs, table);
            &&& forall|h: ProcessHandle| #[trigger]
                m.manual_procs(procs, table).contains(h) ==> procs_in(
                    r.journal,
                    target_key(target),
                ).contains(h)
            &&& forall|k: Seq<char>, h: ProcessHandle| #[trigger]
                procs_in(m.journal, k).contains(h) ==> procs_in(r.journal, k).contains(h)
            &&& !m.in_memory ==> r.owed is Write
        }),
{
    arm_keeps_and_records(
        m.journal,
        target_key(target),
        FreezeMethod::Signal,
        None,
        m.manual_procs(procs, table),
    );
}

/// A freeze leaves recorded what it stopped: a process leaves the journal only
/// where the freeze was about it and did not reach it.
pub proof fn freeze_keeps_what_it_stopped(
    m: EngineModel,
    order: SuspendModel,
    report: ReportModel,
    now: Nanos,
    k: Seq<char>,
    h: ProcessHandle,
)
    requires
        procs_in(m.journal, k).contains(h),
        k != order.key || report.applied.contains(h) || !order.procs.contains(h),
    ensures
        procs_in(m.frozen(order, report, now).journal, k).contains(h),
{
    commit_keeps_the_rest(m.journal, order.key, order.procs, report.applied);
}

/// A freeze that reached something leaves the application frozen, and only that
/// one changed.
pub proof fn freeze_changes_one_application(
    m: EngineModel,
    order: SuspendModel,
    report: ReportModel,
    now: Nanos,
)
    requires
        report.applied.len() > 0,
    ensures
        m.tracks(order.key) ==> m.frozen(order, report, now).app(order.key).state is Frozen,
        forall|k: Seq<char>|
            k != order.key ==> #[trigger] m.frozen(order, report, now).reg.apps[k] == m.reg.apps[k],
{
}

/// The delay before a retry doubles from failure to failure, and stays within
/// its bounds.
pub proof fn retry_delay_doubles_up_to_a_limit(n: u32)
    requires
        1 <= n < u32::MAX,
    ensures
        RETRY_INTERVAL <= retry_delay(n) <= MAX_RETRY_INTERVAL,
        retry_delay(1) == RETRY_INTERVAL,
        retry_delay((n + 1) as u32) == (if 2 * retry_delay(n) <= MAX_RETRY_INTERVAL {
            (2 * retry_delay(n)) as u128
        } else {
            MAX_RETRY_INTERVAL
        }),
{
    let e = (n - 1) as nat;
    lemma_pow2_pos(e);
    lemma_pow2_unfold(n as nat);
    vstd::arithmetic::power2::lemma2_to64();
    assert(pow2(n as nat) == 2 * pow2(e));
    assert(RETRY_INTERVAL * pow2(n as nat) == 2 * (RETRY_INTERVAL * pow2(e))) by (nonlinear_arith)
        requires
            pow2(n as nat) == 2 * pow2(e),
    ;
    assert(RETRY_INTERVAL * pow2(e) >= RETRY_INTERVAL) by (nonlinear_arith)
        requires
            pow2(e) >= 1,
    ;
}

/// A suspend that keeps failing is retried until the last attempt, and then no
/// more.
pub proof fn failing_suspend_is_given_up(
    m: EngineModel,
    key: Seq<char>,
    name: Seq<char>,
    report: ReportModel,
    now: Nanos,
)
    requires
        m.tracks(key),
        report.failed.len() > 0,
    ensures
        ({
            let r = m.suspend_failed(key, name, report, now);
            &&& r.failures[key] == m.attempts(key)
            &&& m.attempts(key) >= MAX_SUSPEND_ATTEMPTS ==> r.app(key).suspend_timer is None
            &&& m.attempts(key) < MAX_SUSPEND_ATTEMPTS ==> r.app(key).suspend_timer == Some(
                later(now, retry_delay(m.attempts(key))),
            )
        }),
{
}

// --- Releasing ---

/// A release takes from the journal exactly those processes of the application
/// that were resumed or are dead.
pub proof fn release_forgets_only_the_resumed(
    m: EngineModel,
    key: Seq<char>,
    name: Seq<char>,
    report: ReportModel,
    now: Nanos,
)
    requires
        m.tracks(key),
        m.app(key).state is Frozen,
    ensures
        ({
            let r = m.activated(key, name, report, now);
            &&& forall|h: ProcessHandle| #[trigger]
                procs_in(r.journal, key).contains(h) <==> procs_in(m.journal, key).contains(h)
                    && !report.settled().contains(h.pid)
            &&& forall|k: Seq<char>|
                k != key ==> #[trigger] procs_in(r.journal, k) == procs_in(m.journal, k)
        }),
{
    lemma_activated(m, key, name, report, now);
    retire_keeps_the_unreleased(m.journal, key, report.settled());
}

/// Closing the last window of an application takes from the journal only those
/// of its processes that were resumed or are dead: what could not be released
/// stays recorded, though the application is no longer tracked.
pub proof fn closing_forgets_only_the_resumed(
    m: EngineModel,
    window_id: u64,
    report: ReportModel,
    now: Nanos,
    k: Seq<char>,
    h: ProcessHandle,
)
    requires
        procs_in(m.journal, k).contains(h),
        m.reg.closing(window_id) != Some(k) || !report.settled().contains(h.pid),
    ensures
        procs_in(m.window_closed(window_id, report, now).journal, k).contains(h),
{
    match m.reg.closing(window_id) {
        Some(key) => {
            retire_keeps_the_unreleased(m.journal, key, report.settled());
        },
        None => {},
    }
}

/// An application is tracked until its last window closes: closing a window that
/// one application has drops this application where it has no other window, and
/// drops nothing where it has.
pub proof fn application_is_dropped_with_its_last_window(
    m: EngineModel,
    window_id: u64,
    report: ReportModel,
    now: Nanos,
    key: Seq<char>,
)
    requires
        m.reg.sound(),
        m.tracks(key),
        m.app(key).window_ids.contains(window_id),
        forall|other: Seq<char>| #[trigger]
            m.tracks(other) && other != key ==> !m.app(other).window_ids.contains(window_id),
    ensures
        forall|k: Seq<char>| #[trigger]
            m.window_closed(window_id, report, now).tracks(k) <==> m.tracks(k) && !(k == key
                && m.app(key).window_ids == seq![window_id]),
        suspended(m.app(key).state) && m.app(key).window_ids == seq![window_id]
            ==> m.close_order(window_id) is Some && m.close_order(window_id)->0.key == key,
{
    assert forall|other: Seq<char>| #[trigger]
        m.reg.apps.contains_key(other) && other != key implies !m.reg.apps[
        other
    ].window_ids.contains(window_id) by {
        assert(m.tracks(other));
    }
    closing_takes_the_owner(m.reg, window_id, key);
}

/// Pre-thawing resumes one application and parks it in the background with a
/// fresh suspend timer.
pub proof fn pre_thaw_parks_with_a_fresh_timer(
    m: EngineModel,
    order: ReleaseModel,
    report: ReportModel,
    now: Nanos,
)
    requires
        m.tracks(order.key),
    ensures
        ({
            let r = m.pre_thawed(order, report, now);
            &&& r.app(order.key).state is Background
            &&& r.app(order.key).state_since == now
            &&& r.app(order.key).suspend_timer == Some(
                later(now, m.app(order.key).policy.suspend_delay),
            )
            &&& r.app(order.key).maintenance_timer is None
            &&& forall|k: Seq<char>|
                k != order.key ==> #[trigger] r.reg.apps[k] == m.reg.apps[k]
        }),
{
    lemma_parked(m, order.key, order.name, report, now);
}

/// Waking a frozen application for a while keeps its record, and it still counts
/// as frozen: a crash before it is frozen again must leave it recoverable.
pub proof fn maintenance_keeps_the_record(
    m: EngineModel,
    order: ReleaseModel,
    again: SuspendModel,
    report: ReportModel,
    now: Nanos,
)
    ensures
        m.maintenance_woken(order, report, now).journal == m.journal,
        m.maintenance_slept(again, report, now).journal == m.journal,
        m.tracks(order.key) ==> m.maintenance_woken(order, report, now).app(order.key).state
            == m.app(order.key).state,
        m.tracks(again.key) ==> m.maintenance_slept(again, report, now).app(again.key).state
            == m.app(again.key).state,
{
}

/// A manual freeze that reached everything, and a manual thaw that released
/// everything, leave the journal as it was.
pub proof fn manual_freeze_then_thaw(
    m: EngineModel,
    target: TargetModel,
    procs: Seq<ProcessHandle>,
    table: ProcessTable,
    now: Nanos,
)
    requires
        !m.journal.contains_key(target_key(target)),
        m.manual_procs(procs, table).len() > 0,
    ensures
        ({
            let planned = m.manual_procs(procs, table);
            m.manual_planned(target, procs, table).freeze_committed(
                target_key(target),
                planned,
                planned,
            ).manual_thawed(target, pids_of(planned), now).journal == m.journal
        }),
{
    freeze_then_thaw_leaves_nothing(
        m.journal,
        target_key(target),
        FreezeMethod::Signal,
        None,
        m.manual_procs(procs, table),
    );
}

// --- Releasing everything ---

/// The keys of a list of orders.
pub open spec fn order_keys(orders: Seq<ReleaseModel>) -> Seq<Seq<char>> {
    orders.map_values(|o: ReleaseModel| o.key)
}

proof fn lemma_orders_cover(
    m: EngineModel,
    keys: Seq<Seq<char>>,
    pick: spec_fn(AppModel) -> bool,
)
    ensures
        forall|k: Seq<char>| #[trigger]
            order_keys(m.orders_for(keys, pick)).contains(k) <==> keys.contains(k) && pick(
                m.app(k),
            ),
    decreases keys.len(),
{
    if keys.len() > 0 {
        let rest = keys.drop_last();
        lemma_orders_cover(m, rest, pick);
        let before = m.orders_for(rest, pick);
        let last = keys.last();
        assert(keys =~= rest.push(last));
        assert forall|k: Seq<char>| #[trigger]
            order_keys(m.orders_for(keys, pick)).contains(k) <==> keys.contains(k) && pick(
            m.app(k),
        ) by {
            vstd::seq_lib::lemma_seq_contains_after_push(rest, last, k);
            if pick(m.app(last)) {
                let o = m.release_order(last, m.app(last).name);
                assert(order_keys(before.push(o)) =~= order_keys(before).push(last));
                vstd::seq_lib::lemma_seq_contains_after_push(order_keys(before), last, k);
            }
        }
    }
}

proof fn lemma_activated_all(
    m: EngineModel,
    orders: Seq<ReleaseModel>,
    reports: Seq<ReportModel>,
    now: Nanos,
)
    requires
        reports.len() == orders.len(),
    ensures
        ({
            let r = m.activated_all(orders, reports, now);
            &&& r.reg.apps.dom() == m.reg.apps.dom()
            &&& forall|k: Seq<char>| #[trigger]
                m.tracks(k) ==> r.app(k).state == (if order_keys(orders).contains(k) {
                    AppState::Active
                } else {
                    m.app(k).state
                })
        }),
    decreases orders.len(),
{
    if orders.len() > 0 {
        let before = orders.drop_last();
        let o = orders.last();
        lemma_activated_all(m, before, reports.drop_last(), now);
        let p = m.activated_all(before, reports.drop_last(), now);
        lemma_activated(p, o.key, o.name, reports.last(), now);
        assert(order_keys(orders) =~= order_keys(before).push(o.key));
        assert forall|k: Seq<char>| #[trigger] m.tracks(k) implies m.activated_all(
            orders,
            reports,
            now,
        ).app(k).state == (if order_keys(orders).contains(k) {
            AppState::Active
        } else {
            m.app(k).state
        }) by {
            vstd::seq_lib::lemma_seq_contains_after_push(order_keys(before), o.key, k);
            assert(p.tracks(k));
        }
    }
}

/// The orders to release everything name exactly the suspended applications, and
/// once they were carried out no application is suspended, whatever came of
/// them.
pub proof fn releasing_everything_leaves_nothing_suspended(
    m: EngineModel,
    reports: Seq<ReportModel>,
    now: Nanos,
)
    requires
        m.reg.sound(),
        reports.len() == m.suspended_orders().len(),
    ensures
        forall|k: Seq<char>| #[trigger]
            order_keys(m.suspended_orders()).contains(k) <==> m.tracks(k) && suspended(
                m.app(k).state,
            ),
        forall|k: Seq<char>| #[trigger]
            m.tracks(k) ==> !suspended(
                m.activated_all(m.suspended_orders(), reports, now).app(k).state,
            ),
{
    let pick = |a: AppModel| suspended(a.state);
    lemma_orders_cover(m, m.reg.order, pick);
    lemma_activated_all(m, m.suspended_orders(), reports, now);
    assert forall|k: Seq<char>| #[trigger]
        order_keys(m.suspended_orders()).contains(k) <==> m.tracks(k) && suspended(
        m.app(k).state,
    ) by {
        assert(m.reg.apps.contains_key(k) <==> m.reg.order.contains(k));
        assert(order_keys(m.orders_for(m.reg.order, pick)).contains(k) <==> m.reg.order.contains(k)
            && pick(m.app(k)));
    }
    assert forall|k: Seq<char>| #[trigger] m.tracks(k) implies !suspended(
        m.activated_all(m.suspended_orders(), reports, now).app(k).state,
    ) by {
        assert(order_keys(m.suspended_orders()).contains(k) <==> suspended(m.app(k).state));
    }
}

/// Where applications are not managed, everything suspended is released; where
/// they are, nothing is.
pub proof fn unmanaged_applications_are_released(m: EngineModel)
    requires
        m.reg.sound(),
    ensures
        forall|k: Seq<char>| #[trigger]
            order_keys(m.unmanaged_orders()).contains(k) <==> !m.manages() && m.tracks(k)
                && suspended(m.app(k).state),
{
    let pick = |a: AppModel| suspended(a.state);
    lemma_orders_cover(m, m.reg.order, pick);
    assert forall|k: Seq<char>| #[trigger]
        order_keys(m.unmanaged_orders()).contains(k) <==> !m.manages() && m.tracks(k) && suspended(
        m.app(k).state,
    ) by {
        assert(m.reg.apps.contains_key(k) <==> m.reg.order.contains(k));
        assert(order_keys(m.orders_for(m.reg.order, pick)).contains(k) <==> m.reg.order.contains(k)
            && pick(m.app(k)));
    }
}

/// Releasing everything that is recorded takes from the journal exactly the
/// processes that were resumed or are dead, entry by entry: a process that could
/// not be resumed stays recorded.
pub proof fn release_recorded_keeps_the_stuck(
    m: EngineModel,
    keys: Seq<Seq<char>>,
    done: Seq<Seq<u32>>,
)
    requires
        keys.no_duplicates(),
        done.len() == keys.len(),
    ensures
        ({
            let r = m.released_all(keys, done);
            &&& forall|i: int, h: ProcessHandle|
                0 <= i < keys.len() ==> (#[trigger] procs_in(r.journal, keys[i]).contains(h)
                    <==> procs_in(m.journal, keys[i]).contains(h) && !done[i].contains(h.pid))
            &&& forall|k: Seq<char>|
                !keys.contains(k) ==> #[trigger] procs_in(r.journal, k) == procs_in(m.journal, k)
            &&& forall|k: Seq<char>| #[trigger]
                r.journal.contains_key(k) ==> m.journal.contains_key(k)
        }),
    decreases keys.len(),
{
    if keys.len() > 0 {
        let ks = keys.drop_last();
        let ds = done.drop_last();
        let k0 = keys.last();
        let d0 = done.last();
        assert(keys =~= ks.push(k0));
        assert(ks.no_duplicates());
        release_recorded_keeps_the_stuck(m, ks, ds);
        let p = m.released_all(ks, ds);
        let r = m.released_all(keys, done);
        retire_keeps_the_unreleased(p.journal, k0, d0);
        assert(!ks.contains(k0)) by {
            if ks.contains(k0) {
                let j = choose|j: int| 0 <= j < ks.len() && ks[j] == k0;
                assert(keys[j] == keys[keys.len() - 1]);
            }
        }
        assert(procs_in(p.journal, k0) == procs_in(m.journal, k0));
        assert forall|i: int, h: ProcessHandle| 0 <= i < keys.len() implies (#[trigger] procs_in(
            r.journal,
            keys[i],
        ).contains(h) <==> procs_in(m.journal, keys[i]).contains(h) && !done[i].contains(
            h.pid,
        )) by {
            if i < ks.len() {
                assert(ks[i] == keys[i]);
                assert(ds[i] == done[i]);
                assert(keys[i] != k0);
                assert(procs_in(r.journal, keys[i]) == procs_in(p.journal, keys[i]));
                assert(procs_in(p.journal, ks[i]).contains(h) <==> procs_in(
                    m.journal,
                    ks[i],
                ).contains(h) && !ds[i].contains(h.pid));
            }
        }
        assert forall|k: Seq<char>| !keys.contains(k) implies #[trigger] procs_in(r.journal, k)
            == procs_in(m.journal, k) by {
            vstd::seq_lib::lemma_seq_contains_after_push(ks, k0, k);
        }
    }
}

/// Once every recorded process was resumed or is dead, nothing is recorded, and
/// the journal's file is deleted.
pub proof fn releasing_every_record_empties_the_journal(
    m: EngineModel,
    keys: Seq<Seq<char>>,
    done: Seq<Seq<u32>>,
)
    requires
        keys.no_duplicates(),
        done.len() == keys.len(),
        forall|k: Seq<char>| #[trigger] m.journal.contains_key(k) <==> keys.contains(k),
        forall|k: Seq<char>| #[trigger] m.journal.contains_key(k) ==> m.journal[k].procs.len() > 0,
        forall|i: int, h: ProcessHandle|
            0 <= i < keys.len() && #[trigger] procs_in(m.journal, keys[i]).contains(h)
                ==> done[i].contains(h.pid),
    ensures
        m.released_all(keys, done).tidied().journal == Map::<Seq<char>, JournalRecord>::empty(),
        !m.in_memory ==> m.released_all(keys, done).tidied().owed is Delete,
{
    let r = m.released_all(keys, done);
    release_recorded_keeps_the_stuck(m, keys, done);
    lemma_entries_hold_processes(m, keys, done);
    assert forall|k: Seq<char>| !r.journal.contains_key(k) by {
        if r.journal.contains_key(k) {
            assert(m.journal.contains_key(k));
            let i = choose|i: int| 0 <= i < keys.len() && keys[i] == k;
            let h = r.journal[k].procs[0];
            assert(procs_in(r.journal, keys[i]).contains(h));
            assert(procs_in(m.journal, keys[i]).contains(h));
        }
    }
    assert(r.journal =~= Map::empty());
    lemma_released_in_memory(m, keys, done);
}

proof fn lemma_entries_hold_processes(m: EngineModel, keys: Seq<Seq<char>>, done: Seq<Seq<u32>>)
    requires
        done.len() == keys.len(),
        forall|k: Seq<char>| #[trigger] m.journal.contains_key(k) ==> m.journal[k].procs.len() > 0,
    ensures
        forall|k: Seq<char>| #[trigger]
            m.released_all(keys, done).journal.contains_key(k) ==> m.released_all(
                keys,
                done,
            ).journal[k].procs.len() > 0,
    decreases keys.len(),
{
    if keys.len() > 0 {
        lemma_entries_hold_processes(m, keys.drop_last(), done.drop_last());
    }
}

proof fn lemma_released_in_memory(m: EngineModel, keys: Seq<Seq<char>>, done: Seq<Seq<u32>>)
    requires
        done.len() == keys.len(),
    ensures
        m.released_all(keys, done).in_memory == m.in_memory,
    decreases keys.len(),
{
    if keys.len() > 0 {
        lemma_released_in_memory(m, keys.drop_last(), done.drop_last());
    }
}

// --- Configuration ---

/// The engine after applications whose policy changed were released, in order.
pub open spec fn rematch_released_all(
    m: EngineModel,
    orders: Seq<ReleaseModel>,
    reports: Seq<ReportModel>,
    now: Nanos,
) -> EngineModel
    decreases orders.len(),
{
    if orders.len() == 0 || reports.len() != orders.len() {
        m
    } else {
        rematch_released_all(m, orders.drop_last(), reports.drop_last(), now).rematch_released(
            orders.last(),
            reports.last(),
            now,
        )
    }
}

proof fn lemma_rematch_released_all(
    m: EngineModel,
    orders: Seq<ReleaseModel>,
    reports: Seq<ReportModel>,
    now: Nanos,
)
    requires
        reports.len() == orders.len(),
    ensures
        ({
            let r = rematch_released_all(m, orders, reports, now);
            &&& r.reg.apps.dom() == m.reg.apps.dom()
            &&& forall|k: Seq<char>| #[trigger]
                m.tracks(k) ==> r.app(k).policy == m.app(k).policy && r.app(k).state == (
                if order_keys(orders).contains(k) {
                    AppState::Background
                } else {
                    m.app(k).state
                })
        }),
    decreases orders.len(),
{
    if orders.len() > 0 {
        let before = orders.drop_last();
        let o = orders.last();
        lemma_rematch_released_all(m, before, reports.drop_last(), now);
        let p = rematch_released_all(m, before, reports.drop_last(), now);
        lemma_parked(p, o.key, o.name, reports.last(), now);
        let r = rematch_released_all(m, orders, reports, now);
        assert(r == p.rematch_released(o, reports.last(), now));
        assert(r.reg.apps.dom() =~= m.reg.apps.dom());
        assert(order_keys(orders) =~= order_keys(before).push(o.key));
        assert forall|k: Seq<char>| #[trigger] m.tracks(k) implies r.app(k).policy == m.app(
            k,
        ).policy && r.app(k).state == (if order_keys(orders).contains(k) {
            AppState::Background
        } else {
            m.app(k).state
        }) by {
            vstd::seq_lib::lemma_seq_contains_after_push(order_keys(before), o.key, k);
            assert(p.tracks(k));
        }
    }
}

/// After a reload, once the applications that the new policies no longer suspend
/// were released, every suspended application is suspended as its policy has it.
pub proof fn reload_leaves_no_mismatch(m: EngineModel, reports: Seq<ReportModel>, now: Nanos)
    requires
        m.reg.sound(),
        reports.len() == m.mismatched_orders().len(),
    ensures
        forall|k: Seq<char>| #[trigger]
            m.tracks(k) ==> {
                let a = rematch_released_all(m, m.mismatched_orders(), reports, now).app(k);
                !mismatched(a.state, a.policy.action)
            },
{
    let pick = |a: AppModel| mismatched(a.state, a.policy.action);
    lemma_orders_cover(m, m.reg.order, pick);
    lemma_rematch_released_all(m, m.mismatched_orders(), reports, now);
    assert forall|k: Seq<char>| #[trigger] m.tracks(k) implies ({
        let a = rematch_released_all(m, m.mismatched_orders(), reports, now).app(k);
        !mismatched(a.state, a.policy.action)
    }) by {
        assert(m.reg.order.contains(k));
        assert(order_keys(m.orders_for(m.reg.order, pick)).contains(k) <==> m.reg.order.contains(k)
            && pick(m.app(k)));
    }
}

proof fn lemma_rematched(m: EngineModel, key: Seq<char>, table: ProcessTable, now: Nanos)
    ensures
        ({
            let r = m.rematched(key, table, now);
            &&& r.reg.apps == m.reg.apps.insert(
                key,
                m.app(key).rematched(m.policy(m.app(key).window, table), now),
            )
            &&& r.config == m.config
            &&& r.desktops == m.desktops
            &&& r.journal == m.journal
        }),
{
}

proof fn lemma_rematched_all(
    m: EngineModel,
    keys: Seq<Seq<char>>,
    table: ProcessTable,
    now: Nanos,
)
    requires
        keys.no_duplicates(),
    ensures
        ({
            let r = m.rematched_all(keys, table, now);
            &&& forall|k: Seq<char>| #[trigger]
                r.reg.apps[k] == (if keys.contains(k) {
                    m.app(k).rematched(m.policy(m.app(k).window, table), now)
                } else {
                    m.reg.apps[k]
                })
            &&& forall|k: Seq<char>| #[trigger]
                r.tracks(k) <==> m.tracks(k) || keys.contains(k)
            &&& r.config == m.config
            &&& r.desktops == m.desktops
            &&& r.journal == m.journal
        }),
    decreases keys.len(),
{
    if keys.len() > 0 {
        let ks = keys.drop_last();
        let k0 = keys.last();
        assert(keys =~= ks.push(k0));
        assert(ks.no_duplicates());
        lemma_rematched_all(m, ks, table, now);
        let p = m.rematched_all(ks, table, now);
        lemma_rematched(p, k0, table, now);
        assert(!ks.contains(k0)) by {
            if ks.contains(k0) {
                let j = choose|j: int| 0 <= j < ks.len() && ks[j] == k0;
                assert(keys[j] == keys[keys.len() - 1]);
            }
        }
        assert(p.app(k0) == m.app(k0));
        assert(p.policy(m.app(k0).window, table) == m.policy(m.app(k0).window, table));
        assert forall|k: Seq<char>| true implies keys.contains(k) == (ks.contains(k) || k == k0) by {
            vstd::seq_lib::lemma_seq_contains_after_push(ks, k0, k);
        }
        let r = m.rematched_all(keys, table, now);
        assert forall|k: Seq<char>| #[trigger] r.reg.apps[k] == (if keys.contains(k) {
            m.app(k).rematched(m.policy(m.app(k).window, table), now)
        } else {
            m.reg.apps[k]
        }) by {
            vstd::seq_lib::lemma_seq_contains_after_push(ks, k0, k);
            assert(p.reg.apps[k] == (if ks.contains(k) {
                m.app(k).rematched(m.policy(m.app(k).window, table), now)
            } else {
                m.reg.apps[k]
            }));
        }
        assert forall|k: Seq<char>| #[trigger] r.tracks(k) <==> m.tracks(k) || keys.contains(
            k,
        ) by {
            vstd::seq_lib::lemma_seq_contains_after_push(ks, k0, k);
            assert(p.tracks(k) <==> m.tracks(k) || ks.contains(k));
        }
    }
}

/// A reload gives every tracked application the policy that the new
/// configuration gives its window, tracks the same applications in the same
/// states, and leaves the journal alone.
pub proof fn reload_rematches_every_application(
    m: EngineModel,
    config: Config,
    table: ProcessTable,
    now: Nanos,
)
    requires
        m.reg.sound(),
    ensures
        ({
            let r = m.reloaded(config, table, now);
            &&& forall|k: Seq<char>| #[trigger] r.tracks(k) <==> m.tracks(k)
            &&& forall|k: Seq<char>| #[trigger]
                m.tracks(k) ==> r.app(k).policy == (EngineModel { config, ..m }).policy(
                    m.app(k).window,
                    table,
                ) && r.app(k).state == m.app(k).state
            &&& r.journal == m.journal
        }),
{
    let n = EngineModel {
        config,
        enabled: config.defaults.enabled,
        metrics: crate::metrics::Metrics {
            config_reloads_total: crate::metrics::bumped(m.metrics.config_reloads_total, 1),
            ..m.metrics
        },
        ..m
    };
    lemma_rematched_all(n, m.reg.order, table, now);
    let r = m.reloaded(config, table, now);
    assert(r == n.rematched_all(m.reg.order, table, now));
    assert forall|k: Seq<char>| #[trigger] r.tracks(k) <==> m.tracks(k) by {
        assert(m.reg.apps.contains_key(k) <==> m.reg.order.contains(k));
    }
    assert forall|k: Seq<char>| #[trigger] m.tracks(k) implies r.app(k).policy == (EngineModel {
        config,
        ..m
    }).policy(m.app(k).window, table) && r.app(k).state == m.app(k).state by {
        assert(m.reg.order.contains(k));
        assert(r.reg.apps[k] == n.app(k).rematched(n.policy(n.app(k).window, table), now));
        let w = m.app(k).window;
        assert(n.policy(w, table) == (EngineModel { config, ..m }).policy(w, table));
    }
}

/// A forced power source outranks the detected one; without one the detected
/// source counts.
pub proof fn override_outranks_detection(m: EngineModel, s: PowerSource, detected: PowerSource)
    ensures
        (EngineModel { forced: Some(s), power: detected, ..m }).manages() == (EngineModel {
            forced: None,
            power: s,
            ..m
        }).manages(),
        (EngineModel { forced: None, power: detected, ..m }).source() == detected,
        (EngineModel { forced: Some(s), power: detected, ..m }).source() == s,
{
}

// --- Reconciliation ---

/// Dropping processes that have exited, and applications that are left with
/// none, leaves the journal alone: descendants may still be stopped.
pub proof fn reaping_keeps_the_journal(m: EngineModel, keys: Seq<Seq<char>>, pids: Seq<Seq<u32>>)
    ensures
        m.reaped_all(keys, pids).journal == m.journal,
    decreases keys.len(),
{
    if keys.len() > 0 && pids.len() == keys.len() {
        reaping_keeps_the_journal(m, keys.drop_last(), pids.drop_last());
    }
}

/// Reaping drops an application exactly where it had processes and is left with
/// none; no other application changes.
pub proof fn reaping_drops_only_the_defunct(m: EngineModel, key: Seq<char>, pids: Seq<u32>)
    requires
        m.tracks(key),
    ensures
        m.reaped(key, pids).tracks(key) <==> !(m.app(key).populated && m.app(key).without_procs(
            pids,
        ).roots.len() == 0),
        forall|k: Seq<char>|
            k != key ==> (#[trigger] m.reaped(key, pids).tracks(k) <==> m.tracks(k)) && m.reaped(
                key,
                pids,
            ).reg.apps[k] == m.reg.apps[k],
{
}

/// While a sweep runs no other is started, and its result lets the next one
/// start.
pub proof fn one_sweep_at_a_time(m: EngineModel, now: Nanos)
    ensures
        m.in_flight ==> !m.sweeps(),
        m.sweeps() ==> !m.ticked(now).sweeps(),
{
}

// --- Reports ---

/// The status counts as protected exactly the applications that the list shows
/// as protected.
pub proof fn status_agrees_with_list(
    m: EngineModel,
    keys: Seq<Seq<char>>,
    table: ProcessTable,
    now: Nanos,
)
    ensures
        m.protected_count(keys, table) == keys.filter(
            |k: Seq<char>| m.info(k, table, now).protected is Some,
        ).len(),
    decreases keys.len(),
{
    reveal(Seq::filter);
    if keys.len() > 0 {
        status_agrees_with_list(m, keys.drop_last(), table, now);
    }
}

/// Stopping the timers stops all of them.
pub proof fn shutdown_leaves_no_timer(m: EngineModel)
    ensures
        forall|k: Seq<char>| #[trigger]
            m.quiet().tracks(k) ==> m.quiet().app(k).suspend_timer is None && m.quiet().app(
                k,
            ).maintenance_timer is None,
        m.quiet().journal == m.journal,
{
}

} // verus!
