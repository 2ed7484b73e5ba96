//! What a focus change does, and what it leaves alone.
use vstd::prelude::*;

use crate::config::matching::{context_of, policy_for};
use crate::config::PolicyModel;
use crate::desktop::window::WindowInfo;
use crate::engine::laws::lemma_focused_apps;
use crate::engine::model::{suspended, EngineModel, ReleaseModel};
use crate::engine::rate_limit::Topic;
use crate::engine::suspend_laws::{lemma_roots_without, others_untouched, same_surroundings};
use crate::metrics::{bumped, Metrics};
use crate::state::app_entry::{fresh_app, window_app, AppModel};
use crate::state::journal::{procs_in, retire_keeps_the_unreleased};
use crate::state::machine::AppState;
use crate::system::apply::ReportModel;
use crate::system::process::{ProcessHandle, ProcessTable};
use crate::system::protection::exemption_text;
use crate::text::ascii_lowercase;
use crate::time::{later, millis, span, Nanos};

verus! {

// --- Releasing ---

/// An application that is released and made active is active from now on, without
/// the processes that are gone; nothing else of it changes. A thaw and the lifting of
/// a throttle are counted, each with the time that was spent suspended.
#[verifier::rlimit(40)]
pub proof fn release_takes_effect(
    m: EngineModel,
    key: Seq<char>,
    name: Seq<char>,
    report: ReportModel,
    now: Nanos,
)
    requires
        m.tracks(key),
        suspended(m.app(key).state),
    ensures
        ({
            let r = m.activated(key, name, report, now);
            let a = m.app(key);
            let spent = millis(span(a.state_since, now));
            &&& r.app(key) == (AppModel {
                state: AppState::Active,
                state_since: now,
                last_active: now,
                roots: r.app(key).roots,
                ..a
            })
            &&& forall|h: ProcessHandle| #[trigger]
                r.app(key).roots.contains(h) <==> a.roots.contains(h) && !report.gone.contains(
                    h.pid,
                )
            &&& report.gone.len() == 0 ==> r.app(key).roots == a.roots
            &&& others_untouched(m, r, key)
            &&& same_surroundings(m, r)
            &&& r.failures == m.failures
            &&& a.state is Frozen ==> {
                &&& r.metrics.apps_thawed_total == bumped(m.metrics.apps_thawed_total, 1)
                &&& r.metrics.time_in_frozen_ms == bumped(m.metrics.time_in_frozen_ms, spent)
                &&& r.metrics.apps_unthrottled_total == m.metrics.apps_unthrottled_total
                &&& r.metrics.time_in_throttled_ms == m.metrics.time_in_throttled_ms
                &&& !m.in_memory && m.journal.contains_key(key) ==> r.owed is Write
            }
            &&& a.state is Throttled ==> {
                &&& r.metrics.apps_unthrottled_total == bumped(m.metrics.apps_unthrottled_total, 1)
                &&& r.metrics.time_in_throttled_ms == bumped(m.metrics.time_in_throttled_ms, spent)
                &&& r.metrics.apps_thawed_total == m.metrics.apps_thawed_total
                &&& r.metrics.time_in_frozen_ms == m.metrics.time_in_frozen_ms
                &&& r.journal == m.journal
                &&& r.owed == m.owed
                &&& r.notices == m.notices
            }
            &&& 0 < report.gone.len() <= u64::MAX ==> r.metrics.pids_reaped_total == bumped(
                m.metrics.pids_reaped_total,
                report.gone.len() as u64,
            )
            &&& report.gone.len() == 0 ==> r.metrics.pids_reaped_total
                == m.metrics.pids_reaped_total
        }),
{
    lemma_roots_without(m.app(key).roots, report.gone);
}

/// A thaw that failed in part is reported for the application; one that did not is
/// not.
pub proof fn failed_thaw_is_reported(
    m: EngineModel,
    key: Seq<char>,
    name: Seq<char>,
    report: ReportModel,
    now: Nanos,
)
    requires
        m.tracks(key),
        m.app(key).state is Frozen,
    ensures
        ({
            let r = m.activated(key, name, report, now);
            let topic = Topic { app_id: name, pid: None, kind: "thaw-failed"@ };
            &&& report.failed.len() == 0 ==> r.notices == m.notices
            &&& report.failed.len() > 0 && m.may_log(topic, now) ==> r.notices == m.notices.push(
                topic,
            )
            &&& report.failed.len() > 0 && !m.may_log(topic, now) ==> r.notices == m.notices
        }),
{
}

/// A release is ordered for the application: in its state, in its cgroup, and for
/// all the processes that are recorded for it; only where none are, for the
/// processes that own its windows.
pub proof fn release_order_reaches_what_is_recorded(
    m: EngineModel,
    key: Seq<char>,
    name: Seq<char>,
)
    requires
        m.tracks(key),
    ensures
        ({
            let o = m.release_order(key, name);
            &&& o.key == key
            &&& o.name == name
            &&& o.state == m.app(key).state
            &&& o.cgroup == m.app(key).cgroup
            &&& procs_in(m.journal, key).len() > 0 ==> o.procs == procs_in(m.journal, key)
            &&& procs_in(m.journal, key).len() == 0 ==> o.procs == m.app(key).roots
            &&& forall|h: ProcessHandle| #[trigger]
                procs_in(m.journal, key).contains(h) ==> o.procs.contains(h)
        }),
{
}

/// What is released of an application that is not tracked is what is recorded for
/// it, and nothing where nothing is.
pub proof fn untracked_release_is_what_is_recorded(m: EngineModel, key: Seq<char>)
    requires
        !m.tracks(key),
    ensures
        m.recorded_procs(key) == procs_in(m.journal, key),
{
    if procs_in(m.journal, key).len() == 0 {
        assert(m.recorded_procs(key) =~= procs_in(m.journal, key));
    }
}

/// An application that is released into the background is there from now on, and has
/// no timer; the others are left alone.
#[verifier::rlimit(40)]
pub proof fn parked_application_has_no_timer(
    m: EngineModel,
    key: Seq<char>,
    name: Seq<char>,
    report: ReportModel,
    now: Nanos,
)
    requires
        m.tracks(key),
    ensures
        ({
            let r = m.parked(key, name, report, now);
            let a = m.app(key);
            &&& r.app(key).state is Background
            &&& r.app(key).state_since == now
            &&& r.app(key).last_active == now
            &&& r.app(key).suspend_timer is None
            &&& r.app(key).maintenance_timer is None
            &&& r.app(key).policy == a.policy
            &&& r.app(key).name == a.name
            &&& r.app(key).cgroup == a.cgroup
            &&& r.app(key).window == a.window
            &&& r.app(key).window_ids == a.window_ids
            &&& suspended(a.state) ==> forall|h: ProcessHandle| #[trigger]
                r.app(key).roots.contains(h) <==> a.roots.contains(h) && !report.gone.contains(
                    h.pid,
                )
            &&& !suspended(a.state) ==> r.app(key).roots == a.roots
            &&& others_untouched(m, r, key)
            &&& same_surroundings(m, r)
            &&& a.state is Frozen ==> r.metrics.apps_thawed_total == bumped(
                m.metrics.apps_thawed_total,
                1,
            )
            &&& a.state is Throttled ==> r.metrics.apps_unthrottled_total == bumped(
                m.metrics.apps_unthrottled_total,
                1,
            )
            &&& !suspended(a.state) ==> r.metrics == m.metrics && r.journal == m.journal
        }),
{
    lemma_roots_without(m.app(key).roots, report.gone);
}

/// An application that is released because its policy changed gets a fresh suspend
/// timer where the new policy manages it, and none where it does not.
pub proof fn rematch_release_restarts_the_timer(
    m: EngineModel,
    order: ReleaseModel,
    report: ReportModel,
    now: Nanos,
)
    requires
        m.tracks(order.key),
    ensures
        ({
            let r = m.rematch_released(order, report, now);
            let a = m.app(order.key);
            &&& r.app(order.key).state is Background
            &&& r.app(order.key).state_since == now
            &&& r.app(order.key).maintenance_timer is None
            &&& a.policy.action is Ignore ==> r.app(order.key).suspend_timer is None
            &&& !(a.policy.action is Ignore) ==> r.app(order.key).suspend_timer == Some(
                later(now, a.policy.suspend_delay),
            )
            &&& others_untouched(m, r, order.key)
            &&& same_surroundings(m, r)
        }),
{
    parked_application_has_no_timer(m, order.key, order.name, report, now);
}

/// Releasing an application that is frozen, in whatever way, takes from its record
/// exactly the processes that were resumed or are gone.
pub proof fn every_release_retires_the_resumed(
    m: EngineModel,
    order: ReleaseModel,
    report: ReportModel,
    now: Nanos,
    h: ProcessHandle,
)
    requires
        m.tracks(order.key),
        m.app(order.key).state is Frozen,
    ensures
        ({
            let kept = procs_in(m.journal, order.key).contains(h) && !report.settled().contains(
                h.pid,
            );
            &&& procs_in(m.parked(order.key, order.name, report, now).journal, order.key).contains(
                h,
            ) <==> kept
            &&& procs_in(m.pre_thawed(order, report, now).journal, order.key).contains(h) <==> kept
            &&& procs_in(m.rematch_released(order, report, now).journal, order.key).contains(h)
                <==> kept
        }),
{
    retire_keeps_the_unreleased(m.journal, order.key, report.settled());
}

// --- Focus ---

/// After a window gained focus, the process that owns it is among the processes of
/// its application, whether the application was tracked before or not.
#[verifier::rlimit(40)]
pub proof fn focus_learns_the_process(
    m: EngineModel,
    w: WindowInfo,
    report: ReportModel,
    table: ProcessTable,
    now: Nanos,
    pid: u32,
)
    requires
        w.pid == Some(pid),
        table.handle_of(pid) is Some,
    ensures
        ({
            let roots = m.focused(w, report, table, now).app(ascii_lowercase(window_app(w))).roots;
            exists|i: int| 0 <= i < roots.len() && (#[trigger] roots[i]).pid == pid
        }),
{
    let name = window_app(w);
    let key = ascii_lowercase(name);
    let h = table.handle_of(pid)->0;
    let r = m.focused(w, report, table, now);
    let roots = r.app(key).roots;
    assert(h.pid == pid);
    if m.tracks(key) {
        let counted = m.with_metrics(
            Metrics {
                focus_changes_total: bumped(m.metrics.focus_changes_total, 1),
                ..m.metrics
            },
        );
        let before = counted.woken(key, name, report, now).app(key).roots;
        let pids = crate::system::apply::pids_of(before);
        if pids.contains(pid) {
            assert(roots == before);
            let i = choose|i: int| 0 <= i < pids.len() && pids[i] == pid;
            assert(roots[i].pid == pid);
        } else if before.contains(h) {
            assert(roots == before);
            let i = choose|i: int| 0 <= i < before.len() && before[i] == h;
            assert(roots[i].pid == pid);
        } else {
            assert(roots == before.push(h));
            assert(roots[before.len() as int].pid == pid);
        }
    } else {
        let bare = Seq::<ProcessHandle>::empty();
        assert(roots == bare.push(h));
        assert(roots[0].pid == pid);
    }
}

/// A focus change loses no process of the application that is focused, but for those
/// that its release found gone; and it learns none but the one that owns the window.
#[verifier::rlimit(40)]
pub proof fn focus_keeps_the_processes(
    m: EngineModel,
    w: WindowInfo,
    report: ReportModel,
    table: ProcessTable,
    now: Nanos,
    h: ProcessHandle,
)
    requires
        m.tracks(ascii_lowercase(window_app(w))),
    ensures
        ({
            let key = ascii_lowercase(window_app(w));
            let a = m.app(key);
            let roots = m.focused(w, report, table, now).app(key).roots;
            let left = a.roots.contains(h) && !(suspended(a.state) && report.gone.contains(h.pid));
            &&& left ==> roots.contains(h)
            &&& roots.contains(h) ==> left || w.pid is Some && table.handle_of(w.pid->0) == Some(h)
        }),
{
    let name = window_app(w);
    let key = ascii_lowercase(name);
    let a = m.app(key);
    lemma_roots_without(a.roots, report.gone);
    let counted = m.with_metrics(
        Metrics { focus_changes_total: bumped(m.metrics.focus_changes_total, 1), ..m.metrics },
    );
    let before = counted.woken(key, name, report, now).app(key).roots;
    let roots = m.focused(w, report, table, now).app(key).roots;
    if w.pid is Some && table.handle_of(w.pid->0) is Some {
        vstd::seq_lib::lemma_seq_contains_after_push(before, table.handle_of(w.pid->0)->0, h);
    }
}

/// A focus change remembers the window with its application: as the one last seen,
/// and among the windows that it has, of which none is lost.
#[verifier::rlimit(40)]
pub proof fn focus_remembers_the_window(
    m: EngineModel,
    w: WindowInfo,
    report: ReportModel,
    table: ProcessTable,
    now: Nanos,
    id: u64,
)
    ensures
        ({
            let key = ascii_lowercase(window_app(w));
            let b = m.focused(w, report, table, now).app(key);
            &&& b.window == w
            &&& m.tracks(key) ==> (b.window_ids.contains(id) <==> id == w.window_id || m.app(
                key,
            ).window_ids.contains(id))
            &&& !m.tracks(key) ==> b.window_ids == seq![w.window_id]
            &&& m.tracks(key) && m.app(key).window_ids.no_duplicates()
                ==> b.window_ids.no_duplicates()
        }),
{
    let key = ascii_lowercase(window_app(w));
    if m.tracks(key) {
        vstd::seq_lib::lemma_seq_contains_after_push(m.app(key).window_ids, w.window_id, id);
    }
}

/// A focused application that was tracked is active from now on, or since it was. A
/// suspend timer of one in the background is off; its failed attempts are forgotten.
/// Its name, its policy and its cgroup stay.
#[verifier::rlimit(40)]
pub proof fn focus_wakes_the_application(
    m: EngineModel,
    w: WindowInfo,
    report: ReportModel,
    table: ProcessTable,
    now: Nanos,
)
    requires
        m.tracks(ascii_lowercase(window_app(w))),
    ensures
        ({
            let key = ascii_lowercase(window_app(w));
            let r = m.focused(w, report, table, now);
            let a = m.app(key);
            let b = r.app(key);
            &&& b.state is Active
            &&& a.state is Active ==> b.state_since == a.state_since && b.last_active
                == a.last_active && r.failures == m.failures && b.suspend_timer == a.suspend_timer
            &&& !(a.state is Active) ==> b.state_since == now && b.last_active == now && r.failures
                == m.failures.remove(key)
            &&& a.state is Background ==> b.suspend_timer is None
            &&& suspended(a.state) ==> b.suspend_timer == a.suspend_timer
            &&& b.maintenance_timer == a.maintenance_timer
            &&& b.name == a.name
            &&& b.policy == a.policy
            &&& b.cgroup == a.cgroup
            &&& w.pid is None ==> b.populated == a.populated
            &&& w.pid is Some && table.handle_of(w.pid->0) is Some && a.populated ==> b.populated
            &&& r.reg.order == m.reg.order
            &&& same_surroundings(m, r)
            &&& r.metrics.focus_changes_total == bumped(m.metrics.focus_changes_total, 1)
            &&& a.state is Frozen ==> r.metrics.apps_thawed_total == bumped(
                m.metrics.apps_thawed_total,
                1,
            )
            &&& a.state is Throttled ==> r.metrics.apps_unthrottled_total == bumped(
                m.metrics.apps_unthrottled_total,
                1,
            )
            &&& !suspended(a.state) ==> r.metrics == (Metrics {
                focus_changes_total: bumped(m.metrics.focus_changes_total, 1),
                ..m.metrics
            }) && r.journal == m.journal && r.owed == m.owed && r.notices == m.notices
        }),
{
}

/// A window of an application that was not tracked makes it tracked, last of all:
/// active from now on, under the name of the window, with the policy that the window
/// gets, without timers and without a cgroup. It owns the process of its window, where
/// there is one.
#[verifier::rlimit(40)]
pub proof fn focus_tracks_a_new_application(
    m: EngineModel,
    w: WindowInfo,
    report: ReportModel,
    table: ProcessTable,
    now: Nanos,
)
    requires
        !m.tracks(ascii_lowercase(window_app(w))),
    ensures
        ({
            let name = window_app(w);
            let key = ascii_lowercase(name);
            let r = m.focused(w, report, table, now);
            let b = r.app(key);
            &&& r.tracks(key)
            &&& r.reg.order == m.reg.order.push(key)
            &&& b.name == name
            &&& b.state is Active
            &&& b.state_since == now
            &&& b.last_active == now
            &&& b.suspend_timer is None
            &&& b.maintenance_timer is None
            &&& b.cgroup is None
            &&& b.window == w
            &&& b.window_ids == seq![w.window_id]
            &&& b.policy == m.policy(w, table)
            &&& b.roots == (if w.pid is Some && table.handle_of(w.pid->0) is Some {
                seq![table.handle_of(w.pid->0)->0]
            } else {
                Seq::empty()
            })
            &&& b.populated <==> b.roots.len() > 0
            &&& same_surroundings(m, r)
            &&& r.journal == m.journal
            &&& r.owed == m.owed
            &&& r.failures == m.failures
            &&& r.metrics.focus_changes_total == bumped(m.metrics.focus_changes_total, 1)
            &&& m.verdict(w, table) is Some && !(m.rule_policy(w).action is Ignore)
                ==> r.metrics.protection_blocks_total == bumped(
                m.metrics.protection_blocks_total,
                1,
            )
            &&& m.verdict(w, table) is None || m.rule_policy(w).action is Ignore
                ==> r.metrics.protection_blocks_total == m.metrics.protection_blocks_total
                && r.notices == m.notices
        }),
{
    let key = ascii_lowercase(window_app(w));
    let r = m.focused(w, report, table, now);
    if w.pid is Some && table.handle_of(w.pid->0) is Some {
        assert(r.app(key).roots =~= seq![table.handle_of(w.pid->0)->0]);
    }
}

/// An application that loses the focus to another goes to the background from now
/// on; where it is managed its suspend timer runs for its delay. Nothing else of it
/// changes, and no other application that was not active changes at all.
pub proof fn losing_focus_starts_the_timer(
    m: EngineModel,
    w: WindowInfo,
    report: ReportModel,
    table: ProcessTable,
    now: Nanos,
    k: Seq<char>,
)
    requires
        m.tracks(k),
        k != ascii_lowercase(window_app(w)),
    ensures
        ({
            let r = m.focused(w, report, table, now);
            let a = m.app(k);
            let b = r.app(k);
            &&& r.tracks(k)
            &&& !(a.state is Active) ==> b == a
            &&& a.state is Active ==> {
                &&& b == (AppModel {
                    state: AppState::Background,
                    state_since: now,
                    suspend_timer: b.suspend_timer,
                    ..a
                })
                &&& m.manages() && !(a.policy.action is Ignore) ==> b.suspend_timer == Some(
                    later(now, a.policy.suspend_delay),
                )
                &&& !m.manages() || a.policy.action is Ignore ==> b.suspend_timer
                    == a.suspend_timer
            }
        }),
{
    lemma_focused_apps(m, w, report, table, now);
    let r = m.focused(w, report, table, now);
    assert(r.tracks(k));
    assert(r.app(k) == m.backgrounded(ascii_lowercase(window_app(w)), k, m.app(k), now));
}

/// The process of a window is moved into the cgroup of its application exactly where
/// the application has one and the process is new to it.
pub proof fn a_new_process_joins_the_cgroup(
    m: EngineModel,
    w: WindowInfo,
    report: ReportModel,
    path: String,
    pid: u32,
)
    ensures
        ({
            let key = ascii_lowercase(window_app(w));
            let a = m.app(key);
            m.moved_pid(w, report) == Some((path, pid)) <==> {
                &&& w.pid == Some(pid)
                &&& m.tracks(key)
                &&& a.cgroup == Some(path)
                &&& forall|h: ProcessHandle| #[trigger]
                    a.roots.contains(h) && h.pid == pid ==> suspended(a.state)
                        && report.gone.contains(pid)
            }
        }),
{
    let key = ascii_lowercase(window_app(w));
    let a = m.app(key);
    lemma_roots_without(a.roots, report.gone);
    let left = m.roots_left(key, report);
    let pids = crate::system::apply::pids_of(left);
    if pids.contains(pid) {
        let i = choose|i: int| 0 <= i < pids.len() && pids[i] == pid;
        assert(left.contains(left[i]));
        assert(a.roots.contains(left[i]) && left[i].pid == pid);
    } else {
        assert forall|h: ProcessHandle| #[trigger]
            a.roots.contains(h) && h.pid == pid implies suspended(a.state)
            && report.gone.contains(pid) by {
            if left.contains(h) {
                let i = choose|i: int| 0 <= i < left.len() && left[i] == h;
                assert(pids[i] == pid);
            }
        }
    }
}

/// A cgroup is made for a newly tracked application that is managed, for the process
/// of its window where there is one; for no other.
pub proof fn a_managed_application_gets_a_cgroup(
    m: EngineModel,
    w: WindowInfo,
    table: ProcessTable,
    now: Nanos,
)
    ensures
        ({
            let wanted = !m.tracks(ascii_lowercase(window_app(w))) && !(m.policy(
                w,
                table,
            ).action is Ignore);
            &&& m.cgroup_pids(w, table, now) is Some <==> wanted
            &&& wanted ==> m.cgroup_pids(w, table, now)->0 == (if w.pid is Some && table.handle_of(
                w.pid->0,
            ) is Some {
                seq![w.pid->0]
            } else {
                Seq::empty()
            })
        }),
{
    let roots = fresh_app(window_app(w), w, m.policy(w, table), table, now).roots;
    let pids = crate::system::apply::pids_of(roots);
    if w.pid is Some && table.handle_of(w.pid->0) is Some {
        assert(pids =~= seq![w.pid->0]);
    } else {
        assert(pids =~= Seq::empty());
    }
}

/// An application gets the cgroup that was made for it, and nothing else changes.
pub proof fn a_made_cgroup_is_remembered(m: EngineModel, key: Seq<char>, path: String)
    ensures
        ({
            let r = m.grouped(key, path);
            &&& m.tracks(key) ==> r.app(key) == (AppModel { cgroup: Some(path), ..m.app(key) })
            &&& !m.tracks(key) ==> r == m
            &&& others_untouched(m, r, key)
            &&& same_surroundings(m, r)
            &&& r.journal == m.journal
            &&& r.metrics == m.metrics
        }),
{
}

// --- Policies ---

/// A protected application is ignored, and says why in place of a rule; all else of
/// its policy is as the rules have it. One that is not protected has the policy that
/// the rules give it.
pub proof fn protection_outranks_the_rules(m: EngineModel, w: WindowInfo, table: ProcessTable)
    ensures
        ({
            let p = m.policy(w, table);
            let ruled = m.rule_policy(w);
            &&& m.verdict(w, table) is None ==> p == ruled
            &&& m.verdict(w, table) matches Some(v) ==> {
                &&& p.action is Ignore
                &&& p.matched_rule == Some(exemption_text(v))
                &&& p == (PolicyModel { action: p.action, matched_rule: p.matched_rule, ..ruled })
            }
        }),
{
}

/// The rules judge a window with the desktop file that is known for its executable,
/// and with none where none is known.
pub proof fn rules_see_the_desktop_file(m: EngineModel, w: WindowInfo)
    ensures
        w.executable matches Some(exe) ==> m.desktops.contains_key(exe@) ==> m.rule_policy(w)
            == policy_for(m.config, context_of(w, m.desktops[exe@]))@,
        w.executable matches Some(exe) ==> !m.desktops.contains_key(exe@) ==> m.rule_policy(w)
            == policy_for(m.config, context_of(w, Seq::empty()))@,
        w.executable is None ==> m.rule_policy(w) == policy_for(
            m.config,
            context_of(w, Seq::empty()),
        )@,
{
}

/// A protected application that the rules would have managed is counted, and reported
/// in its name; of any other nothing is said.
pub proof fn protection_is_reported(
    m: EngineModel,
    name: Seq<char>,
    w: WindowInfo,
    table: ProcessTable,
    now: Nanos,
)
    ensures
        ({
            let r = m.policy_resolved(name, w, table, now);
            let topic = Topic { app_id: name, pid: None, kind: "protected"@ };
            let spared = m.verdict(w, table) is Some && !(m.rule_policy(w).action is Ignore);
            &&& !spared ==> r == m
            &&& spared ==> {
                &&& r.metrics.protection_blocks_total == bumped(
                    m.metrics.protection_blocks_total,
                    1,
                )
                &&& m.may_log(topic, now) ==> r.notices == m.notices.push(topic)
                &&& !m.may_log(topic, now) ==> r.notices == m.notices
                &&& r.reg == m.reg
                &&& r.journal == m.journal
                &&& r.failures == m.failures
                &&& same_surroundings(m, r)
            }
        }),
{
}

// --- Releases ahead of use ---

proof fn lemma_orders(
    m: EngineModel,
    keys: Seq<Seq<char>>,
    pick: spec_fn(AppModel) -> bool,
)
    ensures
        forall|o: ReleaseModel| #[trigger]
            m.orders_for(keys, pick).contains(o) <==> keys.contains(o.key) && pick(m.app(o.key))
                && o == m.release_order(o.key, m.app(o.key).name),
        m.orders_for(keys, pick).len() <= keys.len(),
        keys.no_duplicates() ==> m.orders_for(keys, pick).no_duplicates(),
    decreases keys.len(),
{
    if keys.len() > 0 {
        let ks = keys.drop_last();
        let last = keys.last();
        lemma_orders(m, ks, pick);
        assert(keys =~= ks.push(last));
        let before = m.orders_for(ks, pick);
        let own = m.release_order(last, m.app(last).name);
        assert forall|o: ReleaseModel| #[trigger]
            m.orders_for(keys, pick).contains(o) <==> keys.contains(o.key) && pick(m.app(o.key))
            && o == m.release_order(o.key, m.app(o.key).name) by {
            vstd::seq_lib::lemma_seq_contains_after_push(ks, last, o.key);
            vstd::seq_lib::lemma_seq_contains_after_push(before, own, o);
        }
        if keys.no_duplicates() {
            assert(ks.no_duplicates());
            if before.contains(own) {
                assert(ks.contains(last));
                let j = choose|j: int| 0 <= j < ks.len() && ks[j] == last;
                assert(keys[j] == keys[keys.len() - 1]);
            }
        }
    }
}

/// A switch to a workspace releases exactly the frozen applications whose window is
/// shown there, each once; none where applications are not managed.
pub proof fn workspace_switch_thaws_what_it_shows(m: EngineModel, desktop: u32, o: ReleaseModel)
    requires
        m.reg.sound(),
    ensures
        m.workspace_orders(desktop).contains(o) <==> {
            let a = m.app(o.key);
            &&& m.manages()
            &&& m.tracks(o.key)
            &&& a.state is Frozen
            &&& a.window.desktop is Some && a.window.desktop->0.shows_on(desktop)
            &&& o == m.release_order(o.key, a.name)
        },
        m.workspace_orders(desktop).no_duplicates(),
{
    let pick = |a: AppModel|
        a.state is Frozen && a.window.desktop is Some && a.window.desktop->0.shows_on(desktop);
    lemma_orders(m, m.reg.order, pick);
    assert(m.reg.apps.contains_key(o.key) <==> m.reg.order.contains(o.key));
}

/// A request to activate a window can release exactly the frozen applications that
/// have it; none where applications are not managed.
pub proof fn activation_thaws_the_owner(m: EngineModel, window_id: u64, o: ReleaseModel)
    requires
        m.reg.sound(),
    ensures
        m.activation_orders(window_id).contains(o) <==> {
            let a = m.app(o.key);
            &&& m.manages()
            &&& m.tracks(o.key)
            &&& a.state is Frozen
            &&& a.window_ids.contains(window_id)
            &&& o == m.release_order(o.key, a.name)
        },
        m.activation_orders(window_id).no_duplicates(),
{
    let pick = |a: AppModel| a.state is Frozen && a.window_ids.contains(window_id);
    lemma_orders(m, m.reg.order, pick);
    assert(m.reg.apps.contains_key(o.key) <==> m.reg.order.contains(o.key));
}

/// The orders to release everything, and those to release what the policies do not
/// suspend any more, are orders for the applications themselves, each once.
pub proof fn every_release_is_ordered_once(m: EngineModel, o: ReleaseModel)
    requires
        m.reg.sound(),
    ensures
        m.suspended_orders().contains(o) <==> {
            &&& m.tracks(o.key)
            &&& m.app(o.key).state is Frozen || m.app(o.key).state is Throttled
            &&& o == m.release_order(o.key, m.app(o.key).name)
        },
        m.suspended_orders().no_duplicates(),
        m.mismatched_orders().contains(o) <==> {
            &&& m.tracks(o.key)
            &&& m.app(o.key).state is Frozen && !(m.app(o.key).policy.action is Freeze) || m.app(
                o.key,
            ).state is Throttled && !(m.app(o.key).policy.action is Throttle)
            &&& o == m.release_order(o.key, m.app(o.key).name)
        },
        m.mismatched_orders().no_duplicates(),
        m.unmanaged_orders().contains(o) <==> !m.manages() && m.suspended_orders().contains(o),
{
    let pick = |a: AppModel| suspended(a.state);
    lemma_orders(m, m.reg.order, pick);
    let other = |a: AppModel| crate::engine::model::mismatched(a.state, a.policy.action);
    lemma_orders(m, m.reg.order, other);
    assert(m.reg.apps.contains_key(o.key) <==> m.reg.order.contains(o.key));
}

// --- Closed windows ---

/// Closing the last window of a suspended application releases all that is recorded
/// for it, in its state and its cgroup; closing a window releases nothing else.
pub proof fn closing_releases_what_is_recorded(m: EngineModel, window_id: u64)
    ensures
        match m.close_order(window_id) {
            Some(o) => {
                &&& m.reg.closing(window_id) == Some(o.key)
                &&& suspended(m.app(o.key).state)
                &&& o.name == m.app(o.key).name
                &&& o.state == m.app(o.key).state
                &&& o.cgroup == m.app(o.key).cgroup
                &&& o.procs == procs_in(m.journal, o.key)
            },
            None => m.reg.closing(window_id) is None || !suspended(
                m.app(m.reg.closing(window_id)->0).state,
            ),
        },
{
}

/// A closed window is taken from every application. Where one is dropped with it, its
/// failed attempts and its logged messages go too, and its release is counted; where
/// none is, nothing else changes.
#[verifier::rlimit(40)]
pub proof fn closed_window_is_forgotten(
    m: EngineModel,
    window_id: u64,
    report: ReportModel,
    now: Nanos,
    k: Seq<char>,
)
    requires
        m.tracks(k),
        m.reg.closing(window_id) != Some(k),
    ensures
        ({
            let r = m.window_closed(window_id, report, now);
            let a = m.app(k);
            &&& r.tracks(k)
            &&& r.app(k) == (AppModel { window_ids: r.app(k).window_ids, ..a })
            &&& same_surroundings(m, r)
            &&& m.reg.closing(window_id) is None ==> {
                &&& r.journal == m.journal
                &&& r.metrics == m.metrics
                &&& r.failures == m.failures
                &&& r.seen == m.seen
                &&& r.notices == m.notices
                &&& r.reg.order == m.reg.order
            }
            &&& m.reg.closing(window_id) matches Some(gone) ==> {
                let spent = millis(span(m.app(gone).state_since, now));
                &&& r.failures == m.failures.remove(gone)
                &&& m.app(gone).state is Frozen ==> r.metrics.apps_thawed_total == bumped(
                    m.metrics.apps_thawed_total,
                    1,
                ) && r.metrics.time_in_frozen_ms == bumped(m.metrics.time_in_frozen_ms, spent)
                &&& m.app(gone).state is Throttled ==> r.metrics.apps_unthrottled_total == bumped(
                    m.metrics.apps_unthrottled_total,
                    1,
                ) && r.metrics.time_in_throttled_ms == bumped(
                    m.metrics.time_in_throttled_ms,
                    spent,
                ) && r.journal == m.journal
                &&& !suspended(m.app(gone).state) ==> r.metrics == m.metrics && r.journal
                    == m.journal && r.notices == m.notices
            }
        }),
{
}

/// Nothing that was logged of an application is remembered once it was dropped with
/// its last window.
pub proof fn dropped_application_may_speak_again(
    m: EngineModel,
    window_id: u64,
    report: ReportModel,
    now: Nanos,
    topic: Topic,
)
    requires
        m.reg.closing(window_id) is Some,
        topic.app_id == m.app(m.reg.closing(window_id)->0).name,
    ensures
        !crate::engine::rate_limit::on_topic(
            m.window_closed(window_id, report, now).seen,
            topic,
        ),
        m.window_closed(window_id, report, now).may_log(topic, now),
{
    let r = m.window_closed(window_id, report, now);
    let key = m.reg.closing(window_id)->0;
    let closed = EngineModel { reg: m.reg.without_window(window_id), ..m };
    let n = closed.restored(
        key,
        m.app(key).name,
        m.app(key).state,
        report,
        millis(span(m.app(key).state_since, now)),
        now,
    );
    crate::engine::rate_limit::forgetting_is_selective(n.seen, m.app(key).name, topic);
    crate::engine::rate_limit::expired_passes_again(
        r.seen,
        crate::engine::LOG_SUPPRESSION_WINDOW,
        topic,
        now,
    );
}

/// Orders are given in the order in which the applications were tracked.
pub proof fn releases_are_ordered_as_tracked(
    m: EngineModel,
    keys: Seq<Seq<char>>,
    k: Seq<char>,
    pick: spec_fn(AppModel) -> bool,
)
    ensures
        m.orders_for(Seq::empty(), pick).len() == 0,
        pick(m.app(k)) ==> m.orders_for(keys.push(k), pick) == m.orders_for(keys, pick).push(
            m.release_order(k, m.app(k).name),
        ),
        !pick(m.app(k)) ==> m.orders_for(keys.push(k), pick) == m.orders_for(keys, pick),
{
    assert(keys.push(k).drop_last() =~= keys);
}

/// Closing the last window of a frozen application takes from its record exactly the
/// processes that were resumed or are gone; no other record changes.
pub proof fn closing_retires_the_resumed(
    m: EngineModel,
    window_id: u64,
    report: ReportModel,
    now: Nanos,
    key: Seq<char>,
    k: Seq<char>,
    h: ProcessHandle,
)
    requires
        m.reg.closing(window_id) == Some(key),
        m.app(key).state is Frozen,
    ensures
        ({
            let r = m.window_closed(window_id, report, now);
            &&& procs_in(r.journal, key).contains(h) <==> procs_in(m.journal, key).contains(h)
                && !report.settled().contains(h.pid)
            &&& k != key ==> procs_in(r.journal, k) == procs_in(m.journal, k)
            &&& !m.in_memory && m.journal.contains_key(key) ==> r.owed is Write
        }),
{
    retire_keeps_the_unreleased(m.journal, key, report.settled());
}

/// Of several releases each takes effect on its own application: this is active from
/// now on, and where it was frozen its record loses exactly what its own release
/// resumed or found gone. An application without one is left alone.
#[verifier::rlimit(40)]
pub proof fn releases_take_effect_one_by_one(
    m: EngineModel,
    orders: Seq<ReleaseModel>,
    reports: Seq<ReportModel>,
    now: Nanos,
    k: Seq<char>,
    h: ProcessHandle,
)
    requires
        reports.len() == orders.len(),
        forall|i: int, j: int|
            0 <= i < j < orders.len() ==> (#[trigger] orders[i]).key != (#[trigger] orders[j]).key,
    ensures
        ({
            let r = m.activated_all(orders, reports, now);
            &&& r.tracks(k) <==> m.tracks(k)
            &&& (forall|i: int| 0 <= i < orders.len() ==> (#[trigger] orders[i]).key != k)
                ==> r.reg.apps[k] == m.reg.apps[k] && procs_in(r.journal, k) == procs_in(
                m.journal,
                k,
            )
            &&& forall|i: int|
                0 <= i < orders.len() && (#[trigger] orders[i]).key == k && m.tracks(k) ==> {
                    &&& r.app(k).state is Active
                    &&& r.app(k).state_since == now
                    &&& r.app(k).last_active == now
                    &&& m.app(k).state is Frozen ==> (procs_in(r.journal, k).contains(h)
                        <==> procs_in(m.journal, k).contains(h) && !reports[i].settled().contains(
                        h.pid,
                    ))
                    &&& !(m.app(k).state is Frozen) ==> procs_in(r.journal, k) == procs_in(
                        m.journal,
                        k,
                    )
                }
            &&& r.reg.order == m.reg.order
            &&& same_surroundings(m, r)
        }),
    decreases orders.len(),
{
    if orders.len() > 0 {
        let os = orders.drop_last();
        let rs = reports.drop_last();
        let o = orders.last();
        let n = os.len() as int;
        assert forall|i: int, j: int| 0 <= i < j < os.len() implies (#[trigger] os[i]).key != (
        #[trigger] os[j]).key by {
            assert(orders[i].key != orders[j].key);
        }
        assert forall|i: int| 0 <= i < n implies (#[trigger] os[i]).key != o.key by {
            assert(orders[i].key != orders[n].key);
        }
        releases_take_effect_one_by_one(m, os, rs, now, k, h);
        releases_take_effect_one_by_one(m, os, rs, now, o.key, h);
        let p = m.activated_all(os, rs, now);
        retire_keeps_the_unreleased(p.journal, o.key, reports.last().settled());
        let r = m.activated_all(orders, reports, now);
        assert(r == p.activated(o.key, o.name, reports.last(), now));
        assert(orders[n] == o);
        if k != o.key {
            assert(r.reg.apps[k] == p.reg.apps[k]);
            assert(procs_in(r.journal, k) == procs_in(p.journal, k));
            assert forall|i: int| 0 <= i < orders.len() && (#[trigger] orders[i]).key == k implies i
                < n && os[i] == orders[i] && rs[i] == reports[i] by {}
            if forall|i: int| 0 <= i < orders.len() ==> (#[trigger] orders[i]).key != k {
                assert forall|i: int| 0 <= i < os.len() implies (#[trigger] os[i]).key != k by {
                    assert(orders[i].key != k);
                }
            }
        } else {
            assert forall|i: int| 0 <= i < orders.len() && (#[trigger] orders[i]).key == k implies i
                == n by {
                if i < n {
                    assert(os[i].key != o.key);
                }
            }
        }
    }
}

/// A window that is attached to its application brings its process with it, where this
/// is new to the application and runs; from then on the application counts as having
/// owned one. Nothing else of it changes but the window.
pub proof fn an_attached_window_brings_its_process(
    m: EngineModel,
    key: Seq<char>,
    w: WindowInfo,
    table: ProcessTable,
    pid: u32,
    h: ProcessHandle,
)
    requires
        m.tracks(key),
        w.pid == Some(pid),
        table.handle_of(pid) == Some(h),
        forall|p: ProcessHandle| #[trigger] m.app(key).roots.contains(p) ==> p.pid != pid,
    ensures
        ({
            let b = m.attached(key, w, table).app(key);
            &&& b.roots == m.app(key).roots.push(h)
            &&& b.populated
            &&& b == (AppModel {
                roots: b.roots,
                populated: b.populated,
                window: w,
                window_ids: b.window_ids,
                ..m.app(key)
            })
        }),
{
    let roots = m.app(key).roots;
    let pids = crate::system::apply::pids_of(roots);
    if pids.contains(pid) {
        let i = choose|i: int| 0 <= i < pids.len() && pids[i] == pid;
        assert(roots.contains(roots[i]));
    }
    assert(h.pid == pid);
    assert(!roots.contains(h));
}

} // verus!
