//! What requests, reloads, power changes and reconciliation do.
use vstd::prelude::*;

use crate::assoc::{taking_a_key_keeps_the_others, without_key};
use crate::config::Config;
use crate::engine::config_power::{
    all_settled, clamped, count_refused, initial, recorded_keys, settled_pids, total_done,
    total_refused, RecordedOrder,
};
use crate::engine::ipc_handler::{override_label, IpcStep};
use crate::engine::model::{ipc_pid, suspended, target_key, EngineModel};
use crate::engine::reconcile::{dead_of, KeyedProcs};
use crate::engine::suspend_laws::{others_untouched, same_surroundings};
use crate::engine::Engine;
use crate::ipc::protocol::{target_text, IpcRequest, IpcResponse, TargetModel};
use crate::metrics::{bumped, Metrics};
use crate::state::app_entry::AppModel;
use crate::state::journal::{
    merged_holds_both, procs_in, resumable, retire_keeps_the_unreleased, JournalRecord, Pending,
};
use crate::state::machine::AppState;
use crate::state::process_set::{dead_part, lemma_filter_contains, without_pids};
use crate::system::apply::{pids_of, settled_is_reached_or_gone, ReportModel};
use crate::system::cgroup::CgroupCapabilities;
use crate::system::freeze::{count_done, Delivery};
use crate::system::power::PowerSource;
use crate::system::process::{ProcessHandle, ProcessTable};
use crate::system::protection::{
    exemption_text, name_verdict, partition_is_complete, spared, tree_verdict, verdict_text,
};
use crate::text::{ascii_lowercase, decimal, decimal_round_trip, opt_text};
use crate::time::{later, span, whole_secs, Nanos};

verus! {

proof fn lemma_resumable(procs: Seq<ProcessHandle>, table: ProcessTable)
    ensures
        forall|h: ProcessHandle| #[trigger]
            resumable(procs, table).contains(h) <==> procs.contains(h) && table.alive(h)
                && table.owns(h.pid),
{
    lemma_filter_contains(procs, |h: ProcessHandle| table.alive(h) && table.owns(h.pid));
}

// --- Manual commands ---

/// A manual command on an application for which processes are recorded applies to
/// exactly those of them that are alive and the user's own: descendants that the
/// registry never saw are among them.
pub proof fn manual_command_reaches_what_is_recorded(
    m: EngineModel,
    app: Seq<char>,
    table: ProcessTable,
)
    requires
        procs_in(m.journal, ascii_lowercase(app)).len() > 0,
    ensures
        m.target_procs(TargetModel::App(app), table) matches Ok(procs) && forall|h: ProcessHandle|
         #[trigger]
            procs.contains(h) <==> procs_in(m.journal, ascii_lowercase(app)).contains(h)
                && table.alive(h) && table.owns(h.pid),
{
    lemma_resumable(procs_in(m.journal, ascii_lowercase(app)), table);
}

/// A manual thaw that reached every process it was ordered for leaves none recorded
/// that is alive and the user's own.
pub proof fn manual_thaw_leaves_nothing_stopped(
    m: EngineModel,
    app: Seq<char>,
    report: ReportModel,
    table: ProcessTable,
    now: Nanos,
    h: ProcessHandle,
)
    requires
        procs_in(m.journal, ascii_lowercase(app)).len() > 0,
        m.target_procs(TargetModel::App(app), table) matches Ok(procs) && forall|p: ProcessHandle|
         #[trigger]
            procs.contains(p) ==> report.applied.contains(p),
        procs_in(
            m.manual_thawed(TargetModel::App(app), report.settled(), now).journal,
            ascii_lowercase(app),
        ).contains(h),
    ensures
        !(table.alive(h) && table.owns(h.pid)),
{
    let key = ascii_lowercase(app);
    lemma_resumable(procs_in(m.journal, key), table);
    retire_keeps_the_unreleased(m.journal, key, report.settled());
    let procs = m.target_procs(TargetModel::App(app), table)->Ok_0;
    assert(procs_in(m.journal, key).contains(h) && !report.settled().contains(h.pid));
    if table.alive(h) && table.owns(h.pid) {
        assert(procs.contains(h));
        assert(report.applied.contains(h));
        let i = choose|i: int| 0 <= i < report.applied.len() && report.applied[i] == h;
        assert(report.applied[i].pid == h.pid);
        settled_is_reached_or_gone(report, h.pid);
    }
}

/// A manual command on a tracked application for which nothing is recorded applies to
/// exactly those of its processes that are alive and the user's own. Where it has none
/// at all, or is not tracked, the command is refused, naming the application.
pub proof fn manual_command_falls_back_to_the_windows(
    m: EngineModel,
    app: Seq<char>,
    table: ProcessTable,
)
    requires
        procs_in(m.journal, ascii_lowercase(app)).len() == 0,
    ensures
        ({
            let key = ascii_lowercase(app);
            let r = m.target_procs(TargetModel::App(app), table);
            let has_some = m.tracks(key) && m.app(key).roots.len() > 0;
            &&& r is Ok <==> has_some
            &&& r matches Ok(procs) ==> forall|h: ProcessHandle| #[trigger]
                procs.contains(h) <==> m.app(key).roots.contains(h) && table.alive(h)
                    && table.owns(h.pid)
            &&& r matches Err(e) ==> e == "no tracked application named '"@ + app + "'"@
        }),
{
    lemma_resumable(m.app(ascii_lowercase(app)).roots, table);
}

/// A manual command on a PID applies to the process that carries it now, and to
/// nothing else; it is refused where there is none, and where it is not the user's
/// own.
pub proof fn manual_command_on_a_pid(m: EngineModel, pid: u32, table: ProcessTable)
    ensures
        match m.target_procs(TargetModel::Pid(pid), table) {
            Ok(procs) => {
                &&& procs.len() == 1
                &&& procs[0].pid == pid
                &&& pid != 0
                &&& table.alive(procs[0])
                &&& table.owns(pid)
            },
            Err(_) => pid == 0 || !table.owns(pid) || forall|h: ProcessHandle|
                h.pid == pid ==> !#[trigger] table.alive(h),
        },
        ipc_pid(0, table) == Result::<ProcessHandle, Seq<char>>::Err(
            "pid 0 is not a valid target"@,
        ),
        pid != 0 && table.handle_of(pid) is None ==> ipc_pid(pid, table) == Result::<
            ProcessHandle,
            Seq<char>,
        >::Err("no process with pid "@ + decimal(pid as nat)),
        pid != 0 && table.handle_of(pid) is Some && !table.owns(pid) ==> ipc_pid(pid, table)
            == Result::<ProcessHandle, Seq<char>>::Err(
            "pid "@ + decimal(pid as nat) + " is not owned by current user"@,
        ),
{
}

/// Manual commands on an application share the record of the automatic path, whatever
/// the case of the name; commands on different PIDs have records of their own.
pub proof fn manual_records_are_told_apart(a: Seq<char>, b: Seq<char>, p: u32, q: u32)
    ensures
        target_key(TargetModel::App(a)) == ascii_lowercase(a),
        ascii_lowercase(a) == ascii_lowercase(b) ==> target_key(TargetModel::App(a)) == target_key(
            TargetModel::App(b),
        ),
        p != q ==> target_key(TargetModel::Pid(p)) != target_key(TargetModel::Pid(q)),
        target_key(TargetModel::Pid(p)).len() > "ipc:pid:"@.len(),
        "ipc:pid:"@.is_prefix_of(target_key(TargetModel::Pid(p))),
{
    decimal_round_trip(p as nat);
    decimal_round_trip(q as nat);
    let prefix = "ipc:pid:"@;
    let kp = target_key(TargetModel::Pid(p));
    let kq = target_key(TargetModel::Pid(q));
    assert(kp.skip(prefix.len() as int) =~= decimal(p as nat));
    assert(kq.skip(prefix.len() as int) =~= decimal(q as nat));
}

/// A manual freeze changes no application. Where it may suspend something it is
/// recorded under its target, as one by signals; where it may not, it is counted as
/// refused and nothing is recorded.
pub proof fn manual_freeze_is_planned(
    m: EngineModel,
    target: TargetModel,
    procs: Seq<ProcessHandle>,
    table: ProcessTable,
)
    ensures
        ({
            let r = m.manual_planned(target, procs, table);
            let key = target_key(target);
            let allowed = m.manual_procs(procs, table);
            &&& r.reg == m.reg
            &&& same_surroundings(m, r)
            &&& r.failures == m.failures
            &&& r.notices == m.notices
            &&& allowed.len() == 0 ==> r.journal == m.journal && r.owed == m.owed && r.metrics == (
            Metrics {
                protection_blocks_total: bumped(m.metrics.protection_blocks_total, 1),
                ..m.metrics
            })
            &&& allowed.len() > 0 ==> {
                &&& r.metrics == m.metrics
                &&& r.journal.contains_key(key)
                &&& r.journal[key].method is Signal
                &&& r.journal[key].cgroup_path is None
                &&& forall|h: ProcessHandle| #[trigger]
                    r.journal[key].procs.contains(h) <==> allowed.contains(h) || procs_in(
                        m.journal,
                        key,
                    ).contains(h)
                &&& forall|k: Seq<char>|
                    k != key ==> (#[trigger] r.journal.contains_key(k) <==> m.journal.contains_key(
                        k,
                    )) && r.journal[k] == m.journal[k]
            }
        }),
{
    merged_holds_both(procs_in(m.journal, target_key(target)), m.manual_procs(procs, table));
}

/// After a manual freeze, of the processes it was about exactly those that it reached
/// stay recorded; no application and no other record changes.
pub proof fn manual_freeze_is_narrowed(
    m: EngineModel,
    key: Seq<char>,
    planned: Seq<ProcessHandle>,
    applied: Seq<ProcessHandle>,
)
    ensures
        ({
            let r = m.freeze_committed(key, planned, applied);
            &&& r.reg == m.reg
            &&& same_surroundings(m, r)
            &&& r.metrics == m.metrics
            &&& r.failures == m.failures
            &&& forall|h: ProcessHandle| #[trigger]
                procs_in(r.journal, key).contains(h) <==> procs_in(m.journal, key).contains(h) && (
                applied.contains(h) || !planned.contains(h))
            &&& forall|k: Seq<char>|
                k != key ==> #[trigger] procs_in(r.journal, k) == procs_in(m.journal, k)
            &&& m.journal.contains_key(key) && !m.in_memory ==> r.owed is Write
        }),
{
    crate::state::journal::commit_keeps_the_rest(m.journal, key, planned, applied);
}

/// A manual thaw of an application leaves it in the background from now on, and
/// nothing else of it changed; a thaw of a PID changes no application. Only what was
/// released leaves the record.
pub proof fn manual_thaw_parks_the_application(
    m: EngineModel,
    target: TargetModel,
    done: Seq<u32>,
    now: Nanos,
)
    ensures
        ({
            let r = m.manual_thawed(target, done, now);
            let key = target_key(target);
            &&& target is Pid ==> r.reg == m.reg
            &&& target is App ==> others_untouched(m, r, key)
            &&& target is App && m.tracks(key) ==> r.app(key) == (AppModel {
                state: AppState::Background,
                state_since: now,
                ..m.app(key)
            })
            &&& same_surroundings(m, r)
            &&& r.metrics == m.metrics
            &&& r.failures == m.failures
            &&& forall|h: ProcessHandle| #[trigger]
                procs_in(r.journal, key).contains(h) <==> procs_in(m.journal, key).contains(h)
                    && !done.contains(h.pid)
            &&& forall|k: Seq<char>|
                k != key ==> #[trigger] procs_in(r.journal, k) == procs_in(m.journal, k)
            &&& m.journal.contains_key(key) && !m.in_memory ==> r.owed is Write
        }),
{
    retire_keeps_the_unreleased(m.journal, target_key(target), done);
}

/// Once everything was released, every application that was suspended is in the
/// background from now on and has no timer; no other changes.
pub proof fn release_of_all_parks_the_suspended(m: EngineModel, now: Nanos, k: Seq<char>)
    requires
        m.tracks(k),
    ensures
        ({
            let r = m.all_backgrounded(now);
            &&& r.tracks(k)
            &&& suspended(m.app(k).state) ==> r.app(k) == (AppModel {
                state: AppState::Background,
                state_since: now,
                suspend_timer: None,
                maintenance_timer: None,
                ..m.app(k)
            })
            &&& !suspended(m.app(k).state) ==> r.app(k) == m.app(k)
            &&& r.reg.order == m.reg.order
            &&& r.journal == m.journal
            &&& r.metrics == m.metrics
            &&& same_surroundings(m, r)
        }),
{
}

// --- Reports ---

/// What is reported of an application is what is known of it: its name, state and
/// processes, its window, the rule and the profile that it got, how long it has been
/// in its state, and why it is protected, where it is.
pub proof fn report_tells_what_is_known(
    m: EngineModel,
    key: Seq<char>,
    table: ProcessTable,
    now: Nanos,
)
    ensures
        ({
            let a = m.app(key);
            let i = m.info(key, table, now);
            &&& i.app_id == a.name
            &&& i.state == a.state
            &&& i.pids.len() == a.roots.len()
            &&& forall|j: int| 0 <= j < a.roots.len() ==> #[trigger] i.pids[j] == a.roots[j].pid
            &&& i.executable == opt_text(a.window.executable)
            &&& i.wm_class == opt_text(a.window.wm_class)
            &&& i.window_title == opt_text(a.window.title)
            &&& i.profile == a.policy.matched_profile
            &&& i.rule_id == a.policy.matched_rule
            &&& i.state_since_secs == whole_secs(span(a.state_since, now))
            &&& i.protected is Some <==> m.verdict(a.window, table) is Some
            &&& m.verdict(a.window, table) matches Some(v) ==> i.protected == Some(
                exemption_text(v),
            )
        }),
{
}

/// A status says whether applications are managed, on which source of power the
/// daemon runs and which is forced, how many applications are tracked, for how long
/// it runs, and what the kernel lets it do.
pub proof fn status_tells_the_state(
    m: EngineModel,
    r: IpcResponse,
    table: ProcessTable,
    now: Nanos,
)
    requires
        Engine::reports_status(m, r, table, now),
    ensures
        r matches IpcResponse::Status {
            enabled,
            power_source,
            forced_power_source,
            tracked_apps,
            uptime_secs,
            cgroup_mode,
            cpu_control,
            protected_apps,
            protocol_version,
        } && {
            &&& enabled <==> m.manages()
            &&& !m.enabled ==> !enabled
            &&& power_source == m.power
            &&& forced_power_source == m.forced
            &&& tracked_apps == m.reg.order.len()
            &&& m.start <= now && (now - m.start) / 1_000_000_000 <= u64::MAX ==> uptime_secs == (
            now - m.start) / 1_000_000_000
            &&& cgroup_mode@ == m.caps.tier.text()
            &&& cpu_control == m.caps.cpu_control
            &&& protected_apps == m.reg.order.filter(
                |k: Seq<char>| m.info(k, table, now).protected is Some,
            ).len()
            &&& protected_apps <= tracked_apps
            &&& protocol_version == crate::ipc::protocol::PROTOCOL_VERSION
        },
{
    lemma_protected_count(m, m.reg.order, table);
    crate::engine::laws::status_agrees_with_list(m, m.reg.order, table, now);
}

proof fn lemma_protected_count(m: EngineModel, keys: Seq<Seq<char>>, table: ProcessTable)
    ensures
        m.protected_count(keys, table) <= keys.len(),
    decreases keys.len(),
{
    if keys.len() > 0 {
        lemma_protected_count(m, keys.drop_last(), table);
    }
}

// --- Requests ---

/// A question changes nothing; nor does a request whose work is still to be done.
pub proof fn questions_change_nothing(
    m: EngineModel,
    after: EngineModel,
    request: IpcRequest,
    r: IpcStep,
    table: ProcessTable,
    now: Nanos,
)
    requires
        Engine::handled(m, after, request, r, table, now),
    ensures
        !(request is Freeze) && !(request is SetPowerOverride) ==> after == m,
        request is List ==> r is Reply && r->Reply_0 is AppList,
        request is Status ==> r is Reply && Engine::reports_status(m, r->Reply_0, table, now),
        request is Stats ==> r == IpcStep::Reply(
            IpcResponse::Stats { metrics: m.metrics.reading() },
        ),
        request is ReloadConfig ==> r is Reload,
        request is Shutdown ==> r is Shutdown && r->Shutdown_reply is Done,
        request is ThawAll ==> r is ThawAll,
{
}

/// A request to thaw a target orders a thaw of this target, for exactly the processes
/// that the command applies to; where it applies to none it is refused.
pub proof fn thaw_request_is_ordered(
    m: EngineModel,
    after: EngineModel,
    request: IpcRequest,
    r: IpcStep,
    table: ProcessTable,
    now: Nanos,
)
    requires
        request is Thaw,
        Engine::handled(m, after, request, r, table, now),
    ensures
        m.target_procs(request->Thaw_target@, table) is Ok ==> r is Thaw && r->Thaw_target
            == request->Thaw_target && r->Thaw_procs@ == m.target_procs(
            request->Thaw_target@,
            table,
        )->Ok_0,
        m.target_procs(request->Thaw_target@, table) is Err ==> r is Reply && r->Reply_0 is Error
            && r->Reply_0->Error_message@ == m.target_procs(request->Thaw_target@, table)->Err_0,
{
}

/// A request to freeze a target orders a freeze of this target, for exactly the
/// processes that may be suspended, and records them first; where none may be, it is
/// refused.
pub proof fn freeze_request_is_ordered(
    m: EngineModel,
    after: EngineModel,
    request: IpcRequest,
    r: IpcStep,
    table: ProcessTable,
    now: Nanos,
)
    requires
        request is Freeze,
        Engine::handled(m, after, request, r, table, now),
    ensures
        match m.target_procs(request->Freeze_target@, table) {
            Ok(procs) => {
                let allowed = m.manual_procs(procs, table);
                &&& allowed.len() > 0 ==> {
                    &&& r is Freeze
                    &&& r->Freeze_target == request->Freeze_target
                    &&& r->Freeze_procs@ == allowed
                    &&& forall|h: ProcessHandle| #[trigger]
                        allowed.contains(h) ==> procs_in(
                            after.journal,
                            target_key(request->Freeze_target@),
                        ).contains(h)
                }
                &&& allowed.len() == 0 ==> r is Reply && r->Reply_0 is Error && after.journal
                    == m.journal && r->Reply_0->Error_message@ == "refusing to freeze "@
                    + target_text(request->Freeze_target@) + ": "@ + m.manual_refusal(procs, table)
            },
            Err(e) => after == m && r is Reply && r->Reply_0 is Error
                && r->Reply_0->Error_message@ == e,
        },
{
    if m.target_procs(request->Freeze_target@, table) is Ok {
        let procs = m.target_procs(request->Freeze_target@, table)->Ok_0;
        manual_freeze_is_planned(m, request->Freeze_target@, procs, table);
    }
}

/// A request to thaw everything hands out every record, once, with all its
/// processes.
pub proof fn thaw_of_all_hands_out_every_record(
    m: EngineModel,
    after: EngineModel,
    r: IpcStep,
    table: ProcessTable,
    now: Nanos,
    k: Seq<char>,
)
    requires
        Engine::handled(m, after, IpcRequest::ThawAll, r, table, now),
        m.journal.contains_key(k),
    ensures
        r is ThawAll,
        exists|i: int|
            0 <= i < r->recorded@.len() && (#[trigger] r->recorded@[i]).key@ == k
                && r->recorded@[i].procs@ == m.journal[k].procs,
{
    let orders = r->recorded@;
    let keys = recorded_keys(orders);
    assert(keys.contains(k));
    let i = choose|i: int| 0 <= i < keys.len() && keys[i] == k;
    assert(orders[i].key@ == k);
}

/// A power source is forced as it was asked for, and let go where none was given; an
/// unknown source is refused. What is suspended is released where applications are not
/// managed any more.
pub proof fn power_override_is_set(
    m: EngineModel,
    after: EngineModel,
    source: Option<PowerSource>,
    r: IpcStep,
    table: ProcessTable,
    now: Nanos,
)
    requires
        Engine::handled(m, after, IpcRequest::SetPowerOverride { source }, r, table, now),
    ensures
        source == Some(PowerSource::Unknown) ==> after == m && r is Reply && r->Reply_0 is Error,
        source != Some(PowerSource::Unknown) ==> {
            &&& after.forced == source
            &&& after.power == m.power
            &&& after.enabled == m.enabled
            &&& after.config == m.config
            &&& after.journal == m.journal
            &&& r is Release
            &&& r->Release_reply is Done
            &&& r->Release_reply->Done_message@ == "power source override set to "@
                + override_label(source)
            &&& crate::engine::focus::order_views(r->Release_orders@) == (EngineModel {
                forced: source,
                ..m
            }).unmanaged_orders()
            &&& (EngineModel { forced: source, ..m }).manages() ==> r->Release_orders@.len() == 0
        },
{
    if source != Some(PowerSource::Unknown) {
        let forced = EngineModel { forced: source, ..m };
        if forced.manages() {
            assert(crate::engine::focus::order_views(r->Release_orders@).len() == r->Release_orders@.len());
        }
    }
}

/// The answer names the source that is forced, or that none is.
pub proof fn override_is_named(source: Option<PowerSource>)
    ensures
        source is None ==> override_label(source) == "auto"@,
        source == Some(PowerSource::Ac) ==> override_label(source) == PowerSource::Ac.text(),
        source == Some(PowerSource::Battery) ==> override_label(source)
            == PowerSource::Battery.text(),
{
}

// --- Management, reloads ---

/// Where applications come to be managed, the suspend timers of those in the
/// background that are not ignored start for their delay; nothing else changes. Where
/// they were managed before, or are not now, nothing changes.
pub proof fn management_starts_the_timers(m: EngineModel, was: bool, now: Nanos, k: Seq<char>)
    requires
        m.tracks(k),
    ensures
        ({
            let r = m.settled(was, now);
            let a = m.app(k);
            let starts = m.manages() && !was && a.state is Background && !(
            a.policy.action is Ignore);
            &&& was || !m.manages() ==> r == m
            &&& r.tracks(k)
            &&& starts ==> r.app(k) == (AppModel {
                suspend_timer: Some(later(now, a.policy.suspend_delay)),
                ..a
            })
            &&& !starts ==> r.app(k) == a
            &&& r.reg.order == m.reg.order
            &&& same_surroundings(m, r)
            &&& r.journal == m.journal
            &&& r.metrics == m.metrics
        }),
{
}

/// An application that gets another policy in the background follows it: its timer is
/// off where it is not managed any more, and starts anew where it was managed and is.
/// In any other state its timer is left alone. Nothing else of it changes.
pub proof fn timer_follows_the_policy(
    m: EngineModel,
    key: Seq<char>,
    table: ProcessTable,
    now: Nanos,
)
    requires
        m.tracks(key),
    ensures
        ({
            let r = m.rematched(key, table, now);
            let a = m.app(key);
            let b = r.app(key);
            let p = m.policy(a.window, table);
            &&& b == (AppModel { policy: p, suspend_timer: b.suspend_timer, ..a })
            &&& !(a.state is Background) ==> b.suspend_timer == a.suspend_timer
            &&& a.state is Background && p.action is Ignore ==> b.suspend_timer is None
            &&& a.state is Background && !(p.action is Ignore) && !(a.policy.action is Ignore)
                ==> b.suspend_timer == Some(later(now, p.suspend_delay))
            &&& a.state is Background && !(p.action is Ignore) && a.policy.action is Ignore
                ==> b.suspend_timer == a.suspend_timer
            &&& others_untouched(m, r, key)
            &&& same_surroundings(m, r)
            &&& r.journal == m.journal
            &&& r.failures == m.failures
            &&& m.verdict(a.window, table) is Some && !(m.rule_policy(a.window).action is Ignore)
                ==> r.metrics.protection_blocks_total == bumped(
                m.metrics.protection_blocks_total,
                1,
            )
            &&& m.verdict(a.window, table) is None || m.rule_policy(a.window).action is Ignore
                ==> r.metrics == m.metrics && r.notices == m.notices
        }),
{
}

proof fn lemma_rematched_frame(
    m: EngineModel,
    keys: Seq<Seq<char>>,
    table: ProcessTable,
    now: Nanos,
)
    ensures
        ({
            let r = m.rematched_all(keys, table, now);
            &&& same_surroundings(m, r)
            &&& r.journal == m.journal
            &&& r.owed == m.owed
            &&& r.failures == m.failures
            &&& r.reg.order == m.reg.order
            &&& r.metrics.config_reloads_total == m.metrics.config_reloads_total
        }),
    decreases keys.len(),
{
    if keys.len() > 0 {
        lemma_rematched_frame(m, keys.drop_last(), table, now);
    }
}

/// A reload takes the new configuration and its switch, and is counted; the power
/// source, a forced one, the journal and the order of the applications stay.
pub proof fn reload_takes_the_new_settings(
    m: EngineModel,
    config: Config,
    table: ProcessTable,
    now: Nanos,
)
    ensures
        ({
            let r = m.reloaded(config, table, now);
            &&& r.config == config
            &&& r.enabled == config.defaults.enabled
            &&& r.metrics.config_reloads_total == bumped(m.metrics.config_reloads_total, 1)
            &&& r.power == m.power
            &&& r.forced == m.forced
            &&& r.caps == m.caps
            &&& r.owners == m.owners
            &&& r.desktops == m.desktops
            &&& r.journal == m.journal
            &&& r.owed == m.owed
            &&& r.failures == m.failures
            &&& r.reg.order == m.reg.order
            &&& r.start == m.start
            &&& r.reconcile_interval == m.reconcile_interval
            &&& r.dbus_check == m.dbus_check
            &&& r.dbus_refresh_interval == m.dbus_refresh_interval
            &&& r.last_refresh == m.last_refresh
            &&& r.in_flight == m.in_flight
        }),
{
    let n = EngineModel {
        config,
        enabled: config.defaults.enabled,
        metrics: Metrics {
            config_reloads_total: bumped(m.metrics.config_reloads_total, 1),
            ..m.metrics
        },
        ..m
    };
    lemma_rematched_frame(n, m.reg.order, table, now);
}

/// A new engine tracks nothing, has counted nothing, and forces no power source; it
/// keeps what the journal holds and takes its settings from the configuration.
pub proof fn a_new_engine_starts_empty(
    config: Config,
    journal: Map<Seq<char>, JournalRecord>,
    owed: Pending,
    in_memory: bool,
    journal_path: Seq<char>,
    caps: CgroupCapabilities,
    desktops: Map<Seq<char>, Seq<char>>,
    now: Nanos,
)
    ensures
        ({
            let e = initial(
                config,
                journal,
                owed,
                in_memory,
                journal_path,
                caps,
                desktops,
                now,
            );
            &&& e.reg.order.len() == 0
            &&& forall|k: Seq<char>| !#[trigger] e.tracks(k)
            &&& e.journal == journal
            &&& e.owed == owed
            &&& e.in_memory == in_memory
            &&& e.journal_path == journal_path
            &&& e.config == config
            &&& e.enabled == config.defaults.enabled
            &&& e.caps == caps
            &&& e.desktops == desktops
            &&& e.power is Unknown
            &&& e.forced is None
            &&& e.start == now
            &&& e.reconcile_interval == config.defaults.reconcile_interval
            &&& e.dbus_check == config.defaults.protection.dbus_check
            &&& e.dbus_refresh_interval == config.defaults.protection.dbus_refresh_interval
            &&& e.last_refresh is None
            &&& !e.in_flight
            &&& forall|k: Seq<char>| !#[trigger] e.failures.contains_key(k)
            &&& forall|pid: u32| !#[trigger] e.owners.contains_key(pid)
            &&& e.notices.len() == 0
            &&& e.seen.len() == 0
            &&& e.metrics.apps_frozen_total == 0
            &&& e.metrics.apps_thawed_total == 0
            &&& e.metrics.apps_throttled_total == 0
            &&& e.metrics.apps_unthrottled_total == 0
            &&& e.metrics.focus_changes_total == 0
            &&& e.metrics.guard_blocks_total == 0
            &&& e.metrics.config_reloads_total == 0
            &&& e.metrics.time_in_frozen_ms == 0
            &&& e.metrics.time_in_throttled_ms == 0
            &&& e.metrics.reconcile_ticks_total == 0
            &&& e.metrics.pids_reaped_total == 0
            &&& e.metrics.apps_removed_stale_total == 0
            &&& e.metrics.protection_blocks_total == 0
            &&& e.metrics.journal_recovered_total == 0
            &&& e.metrics.journal_stale_dropped_total == 0
            &&& e.metrics.warns_suppressed_total == 0
        }),
{
}

/// Stopping the timers changes nothing but the timers.
pub proof fn quiet_changes_only_timers(m: EngineModel, k: Seq<char>)
    requires
        m.tracks(k),
    ensures
        ({
            let r = m.quiet();
            &&& r.tracks(k)
            &&& r.app(k) == (AppModel { suspend_timer: None, maintenance_timer: None, ..m.app(k) })
            &&& r.reg.order == m.reg.order
            &&& same_surroundings(m, r)
            &&& r.metrics == m.metrics
            &&& r.owed == m.owed
            &&& r.failures == m.failures
        }),
{
}

// --- Releasing what is recorded ---

/// Of the processes of a record exactly those need no follow-up that were resumed or
/// are dead: one that could not be resumed does.
pub proof fn resumed_and_dead_are_settled(procs: Seq<ProcessHandle>, outcomes: Seq<Delivery>)
    requires
        outcomes.len() == procs.len(),
    ensures
        forall|pid: u32| #[trigger]
            settled_pids(procs, outcomes).contains(pid) <==> exists|i: int|
                0 <= i < procs.len() && (#[trigger] procs[i]).pid == pid && !(
                outcomes[i] is Refused),
        count_done(outcomes) + count_refused(outcomes) <= outcomes.len(),
        settled_pids(procs, outcomes).len() + count_refused(outcomes) == procs.len(),
    decreases procs.len(),
{
    if procs.len() > 0 {
        let p = procs.drop_last();
        let o = outcomes.drop_last();
        let n = p.len() as int;
        resumed_and_dead_are_settled(p, o);
        let before = settled_pids(p, o);
        let all = settled_pids(procs, outcomes);
        assert forall|pid: u32| #[trigger] all.contains(pid) <==> exists|i: int|
            0 <= i < procs.len() && (#[trigger] procs[i]).pid == pid && !(
            outcomes[i] is Refused) by {
            vstd::seq_lib::lemma_seq_contains_after_push(before, procs.last().pid, pid);
            if before.contains(pid) {
                let i = choose|i: int|
                    0 <= i < p.len() && (#[trigger] p[i]).pid == pid && !(o[i] is Refused);
                assert(procs[i].pid == pid && !(outcomes[i] is Refused));
            }
            if exists|i: int|
                0 <= i < procs.len() && (#[trigger] procs[i]).pid == pid && !(
                outcomes[i] is Refused) {
                let i = choose|i: int|
                    0 <= i < procs.len() && (#[trigger] procs[i]).pid == pid && !(
                    outcomes[i] is Refused);
                if i < n {
                    assert(p[i].pid == pid && !(o[i] is Refused));
                }
            }
            assert(procs[n] == procs.last());
        }
    }
}

/// Nothing counts as stuck exactly where no process refused to be resumed.
pub proof fn nothing_stuck_nothing_refused(outcomes: Seq<Delivery>)
    ensures
        count_refused(outcomes) == 0 <==> forall|i: int|
            0 <= i < outcomes.len() ==> !(#[trigger] outcomes[i] is Refused),
    decreases outcomes.len(),
{
    if outcomes.len() > 0 {
        let o = outcomes.drop_last();
        let n = o.len() as int;
        nothing_stuck_nothing_refused(o);
        assert(outcomes[n] == outcomes.last());
        if count_refused(outcomes) == 0 {
            assert forall|i: int| 0 <= i < outcomes.len() implies !(
            #[trigger] outcomes[i] is Refused) by {
                if i < n {
                    assert(o[i] == outcomes[i]);
                }
            }
        }
        if forall|i: int| 0 <= i < outcomes.len() ==> !(#[trigger] outcomes[i] is Refused) {
            assert forall|i: int| 0 <= i < o.len() implies !(#[trigger] o[i] is Refused) by {
                assert(outcomes[i] == o[i]);
            }
        }
    }
}

/// The totals of a release add up over its records, and are shown as they are as long
/// as a machine integer holds them.
pub proof fn totals_add_up(outcomes: Seq<Vec<Delivery>>, more: Vec<Delivery>)
    ensures
        total_done(Seq::empty()) == 0,
        total_refused(Seq::empty()) == 0,
        total_done(outcomes.push(more)) == total_done(outcomes) + count_done(more@),
        total_refused(outcomes.push(more)) == total_refused(outcomes) + count_refused(more@),
        total_done(outcomes) <= usize::MAX ==> clamped(total_done(outcomes)) == total_done(
            outcomes,
        ),
        clamped(total_refused(outcomes)) == 0 <==> total_refused(outcomes) == 0,
{
    assert(outcomes.push(more).drop_last() =~= outcomes);
}

/// A record is settled by what came of its own processes.
pub proof fn records_are_settled_one_by_one(
    orders: Seq<RecordedOrder>,
    outcomes: Seq<Vec<Delivery>>,
    i: int,
    j: int,
)
    requires
        outcomes.len() == orders.len(),
        0 <= i < orders.len(),
        outcomes[i]@.len() == orders[i].procs@.len(),
        0 <= j < orders[i].procs@.len(),
    ensures
        all_settled(orders, outcomes).len() == orders.len(),
        recorded_keys(orders).len() == orders.len(),
        recorded_keys(orders)[i] == orders[i].key@,
        !(outcomes[i]@[j] is Refused) ==> all_settled(orders, outcomes)[i].contains(
            orders[i].procs@[j].pid,
        ),
{
    resumed_and_dead_are_settled(orders[i].procs@, outcomes[i]@);
    let p = orders[i].procs@[j];
    if !(outcomes[i]@[j] is Refused) {
        assert(settled_pids(orders[i].procs@, outcomes[i]@).contains(p.pid));
    }
}

/// The journal's file is deleted where nothing is recorded, and nowhere else.
pub proof fn an_empty_journal_is_deleted(m: EngineModel)
    ensures
        ({
            let r = m.tidied();
            &&& (forall|k: Seq<char>| !#[trigger] m.journal.contains_key(k)) && !m.in_memory
                ==> r.owed is Delete
            &&& (exists|k: Seq<char>| #[trigger] m.journal.contains_key(k)) ==> r == m
            &&& r.journal == m.journal
            &&& r.reg == m.reg
            &&& r.metrics == m.metrics
            &&& m.in_memory && m.owed is Nothing ==> r.owed is Nothing
        }),
{
    if forall|k: Seq<char>| !#[trigger] m.journal.contains_key(k) {
        assert(m.journal =~= Map::<Seq<char>, JournalRecord>::empty());
    }
}

// --- Reconciliation ---

/// A tick starts a sweep exactly where none is running and something is tracked or
/// recorded. The owners of bus names are collected exactly where that is asked for and
/// they never were, or not for the length of the interval.
pub proof fn tick_starts_what_is_due(m: EngineModel, now: Nanos)
    requires
        m.journal.dom().finite(),
    ensures
        m.sweeps() <==> !m.in_flight && (m.reg.order.len() > 0 || exists|k: Seq<char>| #[trigger]
            m.journal.contains_key(k)),
        !m.dbus_check ==> !m.refresh_due(now),
        m.dbus_check && m.last_refresh is None ==> m.refresh_due(now),
        m.dbus_check ==> (m.last_refresh matches Some(t) ==> (m.refresh_due(now) <==> span(t, now)
            >= m.dbus_refresh_interval)),
        ({
            let r = m.ticked(now);
            &&& r.in_flight <==> m.in_flight || m.sweeps()
            &&& m.refresh_due(now) ==> r.last_refresh == Some(now)
            &&& !m.refresh_due(now) ==> r.last_refresh == m.last_refresh
            &&& m.refresh_due(now) && m.dbus_refresh_interval > 0 ==> !r.refresh_due(now)
            &&& r.metrics == (Metrics {
                reconcile_ticks_total: bumped(m.metrics.reconcile_ticks_total, 1),
                ..m.metrics
            })
            &&& r.reg == m.reg
            &&& r.journal == m.journal
            &&& r.owed == m.owed
            &&& r.failures == m.failures
        }),
{
    if m.journal.dom().len() > 0 {
        let k = m.journal.dom().choose();
        assert(m.journal.contains_key(k));
    } else {
        assert forall|k: Seq<char>| !#[trigger] m.journal.contains_key(k) by {
            if m.journal.contains_key(k) {
                assert(m.journal.dom().remove(k).len() == m.journal.dom().len() - 1);
            }
        }
    }
}

/// A sweep reports for each key exactly the processes that are dead, and reports no
/// key without one.
pub proof fn sweep_reports_the_dead(v: Seq<KeyedProcs>, table: ProcessTable)
    ensures
        forall|k: Seq<char>, pids: Seq<u32>| #[trigger]
            dead_of(v, table).contains((k, pids)) <==> exists|i: int|
                0 <= i < v.len() && (#[trigger] v[i]).key@ == k && pids == pids_of(
                    dead_part(v[i].procs@, table),
                ) && exists|h: ProcessHandle| #[trigger]
                    v[i].procs@.contains(h) && !table.alive(h),
    decreases v.len(),
{
    if v.len() > 0 {
        let w = v.drop_last();
        let n = w.len() as int;
        sweep_reports_the_dead(w, table);
        let before = dead_of(w, table);
        let all = dead_of(v, table);
        let last = v.last();
        let dead = dead_part(last.procs@, table);
        let own = (last.key@, pids_of(dead));
        lemma_filter_contains(last.procs@, |h: ProcessHandle| !table.alive(h));
        if dead.len() > 0 {
            assert(dead.contains(dead[0]));
            assert(last.procs@.contains(dead[0]) && !table.alive(dead[0]));
        }
        assert((exists|h: ProcessHandle| #[trigger]
            last.procs@.contains(h) && !table.alive(h)) ==> dead.len() > 0) by {
            if exists|h: ProcessHandle| #[trigger] last.procs@.contains(h) && !table.alive(h) {
                let h = choose|h: ProcessHandle| #[trigger]
                    last.procs@.contains(h) && !table.alive(h);
                assert(dead.contains(h));
            }
        }
        assert forall|k: Seq<char>, pids: Seq<u32>| #[trigger] all.contains((k, pids)) <==> exists|
            i: int,
        |
            0 <= i < v.len() && (#[trigger] v[i]).key@ == k && pids == pids_of(
                dead_part(v[i].procs@, table),
            ) && exists|h: ProcessHandle| #[trigger]
                v[i].procs@.contains(h) && !table.alive(h) by {
            vstd::seq_lib::lemma_seq_contains_after_push(before, own, (k, pids));
            assert(v[n] == last);
            assert forall|i: int| 0 <= i < n implies #[trigger] w[i] == v[i] by {}
            if before.contains((k, pids)) {
                let i = choose|i: int|
                    0 <= i < w.len() && (#[trigger] w[i]).key@ == k && pids == pids_of(
                        dead_part(w[i].procs@, table),
                    ) && exists|h: ProcessHandle| #[trigger]
                        w[i].procs@.contains(h) && !table.alive(h);
                assert(v[i].key@ == k);
            }
            if exists|i: int|
                0 <= i < v.len() && (#[trigger] v[i]).key@ == k && pids == pids_of(
                    dead_part(v[i].procs@, table),
                ) && exists|h: ProcessHandle| #[trigger]
                    v[i].procs@.contains(h) && !table.alive(h) {
                let i = choose|i: int|
                    0 <= i < v.len() && (#[trigger] v[i]).key@ == k && pids == pids_of(
                        dead_part(v[i].procs@, table),
                    ) && exists|h: ProcessHandle| #[trigger]
                        v[i].procs@.contains(h) && !table.alive(h);
                if i < n {
                    assert(w[i].key@ == k);
                }
            }
        }
    }
}

/// Dropping processes of an application takes exactly these from it, and counts them;
/// an application that is left with none is dropped, with its place in the order, its
/// failed attempts and its logged messages, and counted.
pub proof fn reaping_drops_the_dead(m: EngineModel, key: Seq<char>, pids: Seq<u32>)
    requires
        m.tracks(key),
        pids.len() <= u64::MAX,
    ensures
        ({
            let r = m.reaped(key, pids);
            let a = m.app(key);
            let left_with_none = a.populated && forall|h: ProcessHandle| #[trigger]
                a.roots.contains(h) ==> pids.contains(h.pid);
            &&& r.metrics.pids_reaped_total == bumped(
                m.metrics.pids_reaped_total,
                pids.len() as u64,
            )
            &&& r.tracks(key) <==> !left_with_none
            &&& !left_with_none ==> {
                &&& r.app(key) == (AppModel { roots: r.app(key).roots, ..a })
                &&& forall|h: ProcessHandle| #[trigger]
                    r.app(key).roots.contains(h) <==> a.roots.contains(h) && !pids.contains(h.pid)
                &&& r.reg.order == m.reg.order
                &&& r.failures == m.failures
                &&& r.seen == m.seen
                &&& r.metrics.apps_removed_stale_total == m.metrics.apps_removed_stale_total
            }
            &&& left_with_none ==> {
                &&& forall|k: Seq<char>| #[trigger]
                    r.reg.order.contains(k) <==> m.reg.order.contains(k) && k != key
                &&& r.failures == m.failures.remove(key)
                &&& r.metrics.apps_removed_stale_total == bumped(
                    m.metrics.apps_removed_stale_total,
                    1,
                )
            }
            &&& r.journal == m.journal
            &&& same_surroundings(m, r)
        }),
{
    let a = m.app(key);
    let left = without_pids(a.roots, pids);
    lemma_filter_contains(a.roots, |h: ProcessHandle| !pids.contains(h.pid));
    if left.len() > 0 {
        assert(left.contains(left[0]));
        assert(a.roots.contains(left[0]));
    } else {
        assert forall|h: ProcessHandle| #[trigger] a.roots.contains(h) implies pids.contains(
            h.pid,
        ) by {
            if !pids.contains(h.pid) {
                assert(left.contains(h));
            }
        }
    }
    let order = without_key(m.reg.order, key);
    assert forall|k: Seq<char>| #[trigger] order.contains(k) <==> m.reg.order.contains(k) && k
        != key by {
        taking_a_key_keeps_the_others(m.reg.order, key, k);
    }
}

/// The cgroup of an application goes with the application: it is reported exactly
/// where this was left without processes.
pub proof fn cgroup_goes_with_the_application(
    m: EngineModel,
    key: Seq<char>,
    pids: Seq<u32>,
    path: String,
)
    requires
        m.tracks(key),
    ensures
        m.reaped_cgroups(seq![key], seq![pids]).contains(path) <==> {
            &&& m.app(key).populated
            &&& m.app(key).cgroup == Some(path)
            &&& forall|h: ProcessHandle| #[trigger]
                m.app(key).roots.contains(h) ==> pids.contains(h.pid)
        },
{
    let keys = seq![key];
    let lists = seq![pids];
    assert(keys.drop_last() =~= Seq::empty());
    assert(lists.drop_last() =~= Seq::empty());
    assert(keys.last() == key && lists.last() == pids);
    reveal_with_fuel(EngineModel::reaped_cgroups, 2);
    reveal_with_fuel(EngineModel::reaped_all, 2);
    let a = m.app(key);
    let left = without_pids(a.roots, pids);
    lemma_filter_contains(a.roots, |h: ProcessHandle| !pids.contains(h.pid));
    if left.len() > 0 {
        assert(left.contains(left[0]));
        assert(a.roots.contains(left[0]));
    } else {
        assert forall|h: ProcessHandle| #[trigger] a.roots.contains(h) implies pids.contains(
            h.pid,
        ) by {
            if !pids.contains(h.pid) {
                assert(left.contains(h));
            }
        }
    }
    let none = Seq::<String>::empty();
    let got = m.reaped_cgroups(keys, lists);
    if a.cgroup is Some {
        vstd::seq_lib::lemma_seq_contains_after_push(none, a.cgroup->0, path);
    }
    assert(!none.contains(path));
}

/// Sweeping the journal takes exactly the dead processes from the records, counts the
/// records that are left with none, and changes no application.
pub proof fn journal_sweep_counts_the_dropped(
    m: EngineModel,
    keys: Seq<Seq<char>>,
    dead: Seq<Seq<u32>>,
)
    requires
        keys.no_duplicates(),
        dead.len() == keys.len(),
        m.journal.dom().len() <= u64::MAX,
        m.released_all(keys, dead).journal.dom().len() <= m.journal.dom().len(),
    ensures
        ({
            let r = m.journal_swept(keys, dead);
            &&& forall|i: int, h: ProcessHandle|
                0 <= i < keys.len() ==> (#[trigger] procs_in(r.journal, keys[i]).contains(h)
                    <==> procs_in(m.journal, keys[i]).contains(h) && !dead[i].contains(h.pid))
            &&& forall|k: Seq<char>|
                !keys.contains(k) ==> #[trigger] procs_in(r.journal, k) == procs_in(m.journal, k)
            &&& keys.len() > 0 ==> r.metrics.journal_stale_dropped_total == bumped(
                m.metrics.journal_stale_dropped_total,
                (m.journal.dom().len() - r.journal.dom().len()) as u64,
            )
            &&& keys.len() == 0 ==> r == m
            &&& r.reg == m.reg
        }),
{
    crate::engine::laws::release_recorded_keeps_the_stuck(m, keys, dead);
    lemma_released_frame(m, keys, dead);
}

proof fn lemma_released_frame(m: EngineModel, keys: Seq<Seq<char>>, done: Seq<Seq<u32>>)
    ensures
        m.released_all(keys, done).reg == m.reg,
        m.released_all(keys, done).metrics == m.metrics,
    decreases keys.len(),
{
    if keys.len() > 0 && done.len() == keys.len() {
        lemma_released_frame(m, keys.drop_last(), done.drop_last());
    }
}

/// A manual freeze suspends exactly those of the named processes that the built-in list
/// does not protect: what the user names may own a bus name. A refusal gives the reason
/// for the first that is protected, or says that there is none alive.
pub proof fn manual_freeze_spares_the_listed(
    m: EngineModel,
    procs: Seq<ProcessHandle>,
    table: ProcessTable,
    h: ProcessHandle,
)
    ensures
        m.manual_procs(procs, table).contains(h) <==> procs.contains(h) && name_verdict(
            table.comm_of(h.pid),
        ) is None,
        procs.len() == 0 ==> m.manual_refusal(procs, table) == "no live processes"@,
        procs.len() > 0 && name_verdict(table.comm_of(procs[0].pid)) is Some ==> m.manual_refusal(
            procs,
            table,
        ) == verdict_text(name_verdict(table.comm_of(procs[0].pid))->0),
{
    partition_is_complete(m.owners, pids_of(procs), procs, table);
    let own = pids_of(procs);
    if procs.contains(h) {
        let i = choose|i: int| 0 <= i < procs.len() && procs[i] == h;
        assert(own[i] == h.pid);
        assert(own.contains(h.pid));
    }
    if procs.len() > 0 && name_verdict(table.comm_of(procs[0].pid)) is Some {
        assert(own[0] == procs[0].pid);
        assert(own.contains(procs[0].pid));
        lemma_first_spared(m.owners, own, procs, table);
    }
}

proof fn lemma_first_spared(
    owners: Map<u32, Seq<char>>,
    own: Seq<u32>,
    procs: Seq<ProcessHandle>,
    table: ProcessTable,
)
    requires
        procs.len() > 0,
        tree_verdict(owners, own, procs[0].pid, table) is Some,
    ensures
        spared(owners, own, procs, table).len() > 0,
        spared(owners, own, procs, table)[0] == (
            procs[0].pid,
            tree_verdict(owners, own, procs[0].pid, table)->0,
        ),
    decreases procs.len(),
{
    if procs.len() > 1 {
        lemma_first_spared(owners, own, procs.drop_last(), table);
    } else {
        assert(procs.drop_last() =~= Seq::empty());
        assert(spared(owners, own, procs.drop_last(), table).len() == 0);
    }
}

/// Of several applications each loses exactly its own dead processes, and is dropped
/// where it is left with none; one of which nothing died is left alone.
pub proof fn applications_are_reaped_one_by_one(
    m: EngineModel,
    keys: Seq<Seq<char>>,
    pids: Seq<Seq<u32>>,
    k: Seq<char>,
    h: ProcessHandle,
)
    requires
        pids.len() == keys.len(),
        keys.no_duplicates(),
    ensures
        ({
            let r = m.reaped_all(keys, pids);
            &&& !keys.contains(k) ==> (r.tracks(k) <==> m.tracks(k)) && r.reg.apps[k]
                == m.reg.apps[k]
            &&& forall|i: int|
                0 <= i < keys.len() && #[trigger] keys[i] == k && m.tracks(k) ==> {
                    let left_with_none = m.app(k).populated && forall|p: ProcessHandle| #[trigger]
                        m.app(k).roots.contains(p) ==> pids[i].contains(p.pid);
                    &&& r.tracks(k) <==> !left_with_none
                    &&& r.tracks(k) ==> (r.app(k).roots.contains(h) <==> m.app(k).roots.contains(h)
                        && !pids[i].contains(h.pid))
                }
        }),
    decreases keys.len(),
{
    if keys.len() > 0 {
        let ks = keys.drop_last();
        let ps = pids.drop_last();
        let k0 = keys.last();
        let n = ks.len() as int;
        assert(keys =~= ks.push(k0));
        assert(ks.no_duplicates());
        assert(!ks.contains(k0)) by {
            if ks.contains(k0) {
                let j = choose|j: int| 0 <= j < ks.len() && ks[j] == k0;
                assert(keys[j] == keys[n]);
            }
        }
        applications_are_reaped_one_by_one(m, ks, ps, k, h);
        applications_are_reaped_one_by_one(m, ks, ps, k0, h);
        vstd::seq_lib::lemma_seq_contains_after_push(ks, k0, k);
        let p = m.reaped_all(ks, ps);
        let r = m.reaped_all(keys, pids);
        assert(r == p.reaped(k0, pids.last()));
        if k != k0 {
            assert(r.tracks(k) <==> p.tracks(k));
            assert(r.reg.apps[k] == p.reg.apps[k]);
            assert forall|i: int| 0 <= i < keys.len() && #[trigger] keys[i] == k implies i < n
                && ks[i] == k && ps[i] == pids[i] by {}
        } else {
            assert(p.reg.apps[k] == m.reg.apps[k]);
            let a = m.app(k);
            let gone = pids.last();
            let left = without_pids(a.roots, gone);
            lemma_filter_contains(a.roots, |x: ProcessHandle| !gone.contains(x.pid));
            if left.len() > 0 {
                assert(left.contains(left[0]));
                assert(a.roots.contains(left[0]));
            } else {
                assert forall|x: ProcessHandle| #[trigger] a.roots.contains(x) implies gone.contains(
                    x.pid,
                ) by {
                    if !gone.contains(x.pid) {
                        assert(left.contains(x));
                    }
                }
            }
            assert forall|i: int| 0 <= i < keys.len() && #[trigger] keys[i] == k implies i
                == n by {
                assert(keys[n] == k0);
            }
        }
    }
}

/// A list shows every tracked application, once, in the order in which they were
/// tracked.
pub proof fn a_list_shows_every_application(
    m: EngineModel,
    after: EngineModel,
    r: IpcStep,
    table: ProcessTable,
    now: Nanos,
    k: Seq<char>,
)
    requires
        m.reg.sound(),
        m.tracks(k),
        Engine::handled(m, after, IpcRequest::List, r, table, now),
    ensures
        r matches IpcStep::Reply(IpcResponse::AppList { apps }) && {
            &&& apps@.len() == m.reg.order.len()
            &&& exists|i: int|
                0 <= i < apps@.len() && m.reg.order[i] == k && (#[trigger] apps@[i])@ == m.info(
                    k,
                    table,
                    now,
                )
        },
{
    assert(m.reg.apps.contains_key(k));
    assert(m.reg.order.contains(k));
    let i = choose|i: int| 0 <= i < m.reg.order.len() && m.reg.order[i] == k;
    let apps = r->Reply_0->apps;
    assert(apps@[i]@ == m.info(m.reg.order[i], table, now));
}

} // verus!
