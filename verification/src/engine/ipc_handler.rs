//! Requests from the command line.
use vstd::prelude::*;

use crate::assoc::lemma_take_contains;
use crate::engine::config_power::{
    all_settled, clamped, recorded_keys, total_done, total_refused, RecordedOrder,
};
use crate::engine::focus::order_views;
use crate::engine::model::{ipc_pid, target_key, EngineModel, InfoModel};
use crate::engine::{Engine, ReleaseOrder};
use crate::ipc::protocol::{
    says_error, says_ok, target_text, AppInfo, IpcRequest, IpcResponse, Target, PROTOCOL_VERSION,
};
use crate::metrics::bump;
use crate::state::app_entry::AppId;
use crate::state::journal::{procs_in, resumable, FreezeMethod};
use crate::state::machine::AppState;
use crate::state::process_set::{handle_pids, lemma_filter_step};
use crate::state::registry::RegistryModel;
use crate::system::apply::ApplyReport;
use crate::system::freeze::Delivery;
use crate::system::power::PowerSource;
use crate::system::process::{ProcessHandle, ProcessTable};
use crate::system::protection::spared_view;
use crate::text::{cat2, cat3, cat4, cat5, clone_opt, decimal, format_u64, opt_text};
use crate::time::{as_secs, elapsed, whole_secs, span, Nanos};

verus! {

impl View for AppInfo {
    type V = InfoModel;

    open spec fn view(&self) -> InfoModel {
        InfoModel {
            app_id: self.app_id@,
            state: self.state,
            pids: self.pids@,
            executable: opt_text(self.executable),
            wm_class: opt_text(self.wm_class),
            window_title: opt_text(self.window_title),
            profile: opt_text(self.profile),
            rule_id: opt_text(self.rule_id),
            state_since_secs: self.state_since_secs,
            protected: opt_text(self.protected),
        }
    }
}

/// What a request leads to.
#[derive(Debug)]
pub enum IpcStep {
    /// An answer.
    Reply(IpcResponse),
    /// An answer, once these applications were released.
    Release { orders: Vec<ReleaseOrder>, reply: IpcResponse },
    /// A freeze of these processes, once the journal is on disk.
    Freeze { target: Target, procs: Vec<ProcessHandle> },
    /// A thaw of these processes.
    Thaw { target: Target, procs: Vec<ProcessHandle> },
    /// A release of everything that is recorded.
    ThawAll { recorded: Vec<RecordedOrder> },
    /// A reload of the configuration file.
    Reload,
    /// A shutdown, with an answer.
    Shutdown { reply: IpcResponse },
}

/// The label for a power source override.
pub open spec fn override_label(source: Option<PowerSource>) -> Seq<char> {
    match source {
        Some(s) => s.text(),
        None => "auto"@,
    }
}

/// Validates a PID for a manual command.
///
/// Capturing the identity and checking ownership are separate obligations:
/// identity says which process it is, ownership whether it may be signalled.
pub fn validate_ipc_pid(pid: u32, table: &ProcessTable) -> (r: Result<ProcessHandle, String>)
    ensures
        match r {
            Ok(h) => ipc_pid(pid, *table) == Result::<ProcessHandle, Seq<char>>::Ok(h),
            Err(e) => ipc_pid(pid, *table) == Result::<ProcessHandle, Seq<char>>::Err(e@),
        },
{
    if pid == 0 {
        return Err("pid 0 is not a valid target".to_owned());
    }
    let n = format_u64(pid as u64);
    match ProcessHandle::open(pid, table) {
        None => Err(cat2("no process with pid ", &n)),
        Some(handle) => {
            if handle.is_owned(table) {
                Ok(handle)
            } else {
                Err(cat3("pid ", &n, " is not owned by current user"))
            }
        },
    }
}

/// Journal key for a manual command.
pub fn journal_key_for(target: &Target) -> (r: String)
    ensures
        r@ == target_key(target@),
{
    match target {
        Target::Pid { pid } => {
            let n = format_u64(*pid as u64);
            cat2("ipc:pid:", &n)
        },
        Target::App { app } => {
            let id = AppId::new(app.clone());
            id.key().to_owned()
        },
    }
}

fn signallable(procs: &Vec<ProcessHandle>, table: &ProcessTable) -> (r: Vec<ProcessHandle>)
    ensures
        r@ == resumable(procs@, *table),
{
    let ghost keep = |h: ProcessHandle| table.alive(h) && table.owns(h.pid);
    let mut out: Vec<ProcessHandle> = Vec::new();
    let mut i: usize = 0;
    proof {
        reveal(Seq::filter);
        assert(out@ =~= procs@.take(0).filter(keep));
    }
    while i < procs.len()
        invariant
            i <= procs@.len(),
            keep == (|h: ProcessHandle| table.alive(h) && table.owns(h.pid)),
            out@ == procs@.take(i as int).filter(keep),
        decreases procs@.len() - i,
    {
        proof {
            lemma_filter_step(procs@, keep, i as int);
        }
        if procs[i].is_alive(table) && procs[i].is_owned(table) {
            out.push(procs[i]);
        }
        i = i + 1;
    }
    proof {
        assert(procs@.take(procs@.len() as int) =~= procs@);
    }
    out
}

/// The answer to a freeze that could not be recorded; `reason` says why.
pub fn freeze_unrecorded(target: &Target, reason: &str) -> (r: IpcResponse)
    ensures
        says_error(
            r,
            "refusing to freeze "@ + target_text(target@)
                + ": cannot record it in the freeze journal ("@ + reason@
                + "); suspended processes that are not recorded cannot be recovered"@,
        ),
{
    let name = target.name();
    IpcResponse::Error {
        message: cat5(
            "refusing to freeze ",
            &name,
            ": cannot record it in the freeze journal (",
            reason,
            "); suspended processes that are not recorded cannot be recovered",
        ),
    }
}

/// What became of a request to reload the configuration.
#[derive(Debug)]
pub enum ReloadOutcome {
    /// The file was read, and the reload is queued.
    Queued,
    /// The file was read, but the reload could not be queued.
    NotQueued(String),
    /// The file could not be loaded.
    Failed(String),
}

/// The answer to a reload request.
pub fn reload_reply(outcome: &ReloadOutcome) -> (r: IpcResponse)
    ensures
        match *outcome {
            ReloadOutcome::Queued => says_ok(r, "config reload triggered"@),
            ReloadOutcome::NotQueued(e) => says_error(
                r,
                "failed to queue config reload: "@ + e@,
            ),
            ReloadOutcome::Failed(e) => says_error(r, "config reload failed: "@ + e@),
        },
{
    match outcome {
        ReloadOutcome::Queued => IpcResponse::Done { message: "config reload triggered".to_owned() },
        ReloadOutcome::NotQueued(e) => IpcResponse::Error {
            message: cat2("failed to queue config reload: ", e),
        },
        ReloadOutcome::Failed(e) => IpcResponse::Error {
            message: cat2("config reload failed: ", e),
        },
    }
}

impl Engine {
    fn app_info(&self, i: usize, table: &ProcessTable, now: Nanos) -> (r: AppInfo)
        requires
            self.wf(),
            i < self@.reg.order.len(),
        ensures
            r@ == self@.info(self@.reg.order[i as int], *table, now),
    {
        let entry = self.registry.entry_at(i);
        let window = entry.window_info();
        let policy = entry.policy();
        let protected = match self.protection_verdict(window, table) {
            Some(reason) => Some(reason.exemption()),
            None => None,
        };
        AppInfo {
            app_id: entry.app_id().as_str().to_owned(),
            state: entry.state(),
            pids: entry.pids(),
            executable: clone_opt(&window.executable),
            wm_class: clone_opt(&window.wm_class),
            window_title: clone_opt(&window.title),
            profile: clone_opt(&policy.matched_profile),
            rule_id: clone_opt(&policy.matched_rule),
            state_since_secs: as_secs(elapsed(entry.state_since(), now)),
            protected,
        }
    }

    /// Lists all tracked applications.
    pub fn list(&self, table: &ProcessTable, now: Nanos) -> (r: Vec<AppInfo>)
        requires
            self.wf(),
        ensures
            r@.len() == self@.reg.order.len(),
            forall|i: int|
                0 <= i < r@.len() ==> (#[trigger] r@[i])@ == self@.info(
                    self@.reg.order[i],
                    *table,
                    now,
                ),
    {
        let mut out: Vec<AppInfo> = Vec::new();
        let mut i: usize = 0;
        while i < self.registry.len()
            invariant
                i <= self@.reg.order.len(),
                self.wf(),
                out@.len() == i,
                forall|j: int|
                    0 <= j < i ==> (#[trigger] out@[j])@ == self@.info(
                        self@.reg.order[j],
                        *table,
                        now,
                    ),
            decreases self@.reg.order.len() - i,
        {
            out.push(self.app_info(i, table, now));
            i = i + 1;
        }
        out
    }

    fn count_protected(&self, table: &ProcessTable) -> (r: usize)
        requires
            self.wf(),
        ensures
            r == self@.protected_count(self@.reg.order, *table),
    {
        let ghost order = self@.reg.order;
        let mut n: usize = 0;
        let mut i: usize = 0;
        proof {
            assert(order.take(0) =~= Seq::empty());
        }
        while i < self.registry.len()
            invariant
                i <= order.len(),
                order == self@.reg.order,
                self.wf(),
                n <= i,
                n == self@.protected_count(order.take(i as int), *table),
            decreases order.len() - i,
        {
            proof {
                assert(order.take(i + 1).drop_last() =~= order.take(i as int));
            }
            let entry = self.registry.entry_at(i);
            if self.protection_verdict(entry.window_info(), table).is_some() {
                n = n + 1;
            }
            i = i + 1;
        }
        proof {
            assert(order.take(order.len() as int) =~= order);
        }
        n
    }

    /// Whether a response reports the status of an engine.
    pub open spec fn reports_status(
        m: EngineModel,
        r: IpcResponse,
        table: ProcessTable,
        now: Nanos,
    ) -> bool {
        r matches IpcResponse::Status {
            enabled,
            power_source,
            forced_power_source,
            tracked_apps,
            uptime_secs,
            cgroup_mode,
            cpu_control,
            protected_apps,
            protocol_version,
        } && {
            &&& enabled == m.manages()
            &&& power_source == m.power
            &&& forced_power_source == m.forced
            &&& tracked_apps == m.reg.order.len()
            &&& uptime_secs == whole_secs(span(m.start, now))
            &&& cgroup_mode@ == m.caps.tier.text()
            &&& cpu_control == m.caps.cpu_control
            &&& protected_apps == m.protected_count(m.reg.order, table)
            &&& protocol_version == PROTOCOL_VERSION
        }
    }

    /// Reports the status.
    pub fn status(&self, table: &ProcessTable, now: Nanos) -> (r: IpcResponse)
        requires
            self.wf(),
        ensures
            Engine::reports_status(self@, r, *table, now),
    {
        IpcResponse::Status {
            enabled: self.enabled && self.should_manage(),
            power_source: self.power_source,
            forced_power_source: self.forced_power_source,
            tracked_apps: self.registry.len(),
            uptime_secs: as_secs(elapsed(self.start_time, now)),
            cgroup_mode: self.caps.tier.name().to_owned(),
            cpu_control: self.caps.cpu_control,
            protected_apps: self.count_protected(table),
            protocol_version: PROTOCOL_VERSION,
        }
    }

    /// Turns the target of a manual command into the processes to act on.
    pub fn resolve_target(&self, target: &Target, table: &ProcessTable) -> (r: Result<
        Vec<ProcessHandle>,
        String,
    >)
        requires
            self.wf(),
        ensures
            match r {
                Ok(procs) => self@.target_procs(target@, *table) == Result::<
                    Seq<ProcessHandle>,
                    Seq<char>,
                >::Ok(procs@),
                Err(e) => self@.target_procs(target@, *table) == Result::<
                    Seq<ProcessHandle>,
                    Seq<char>,
                >::Err(e@),
            },
    {
        match target {
            Target::Pid { pid } => match validate_ipc_pid(*pid, table) {
                Ok(handle) => {
                    let procs: Vec<ProcessHandle> = vec![handle];
                    proof {
                        assert(procs@ =~= seq![handle]);
                    }
                    Ok(procs)
                },
                Err(e) => Err(e),
            },
            Target::App { app } => {
                let id = AppId::new(app.clone());
                let procs = self.recorded_procs_for(id.key());
                if procs.len() == 0 {
                    return Err(cat3("no tracked application named '", app, "'"));
                }
                Ok(signallable(&procs, table))
            },
        }
    }

    /// Plans a manual freeze.
    ///
    /// The deny-list is not overridable by a manual command either. What is to
    /// be frozen is recorded before it is signalled, as on the automatic path.
    pub fn ipc_freeze(&mut self, target: &Target, table: &ProcessTable) -> (r: Result<
        Vec<ProcessHandle>,
        IpcResponse,
    >)
        requires
            old(self).wf(),
        ensures
            final(self).wf(),
            match old(self)@.target_procs(target@, *table) {
                Ok(procs) => {
                    &&& final(self)@ == old(self)@.manual_planned(target@, procs, *table)
                    &&& match r {
                        Ok(planned) => planned@ == old(self)@.manual_procs(procs, *table)
                            && planned@.len() > 0,
                        Err(reply) => {
                            &&& old(self)@.manual_procs(procs, *table).len() == 0
                            &&& says_error(
                                reply,
                                "refusing to freeze "@ + target_text(target@) + ": "@
                                    + old(self)@.manual_refusal(procs, *table),
                            )
                        },
                    }
                },
                Err(message) => final(self)@ == old(self)@ && r is Err && says_error(
                    r->Err_0,
                    message,
                ),
            },
    {
        let ghost m = self@;
        let procs = match self.resolve_target(target, table) {
            Ok(procs) => procs,
            Err(message) => {
                return Err(IpcResponse::Error { message });
            },
        };
        let own = handle_pids(&procs);
        let (allowed, protected) = self.protection.partition(&procs, &own, table);
        if allowed.len() == 0 {
            let reason = if protected.len() > 0 {
                proof {
                    assert(spared_view(protected@)[0].1 == protected@[0].1@);
                }
                protected[0].1.message()
            } else {
                "no live processes".to_owned()
            };
            self.metrics.protection_blocks_total = bump(self.metrics.protection_blocks_total, 1);
            let name = target.name();
            return Err(
                IpcResponse::Error { message: cat4("refusing to freeze ", &name, ": ", &reason) },
            );
        }
        let key = journal_key_for(target);
        self.journal.arm(&key, FreezeMethod::Signal, None, &allowed);
        Ok(allowed)
    }

    /// Takes the report on a manual freeze.
    pub fn finish_ipc_freeze(
        &mut self,
        target: &Target,
        procs: &Vec<ProcessHandle>,
        report: &ApplyReport,
    ) -> (r: IpcResponse)
        requires
            old(self).wf(),
        ensures
            final(self).wf(),
            final(self)@ == old(self)@.freeze_committed(
                target_key(target@),
                procs@,
                report@.applied,
            ),
            if report@.applied.len() == 0 {
                says_error(
                    r,
                    "freeze failed for "@ + target_text(target@)
                        + ": no process could be suspended"@,
                )
            } else {
                says_ok(
                    r,
                    "froze "@ + decimal(report@.applied.len()) + " process(es) for "@
                        + target_text(target@),
                )
            },
    {
        let key = journal_key_for(target);
        self.journal.commit(&key, procs, &report.applied);
        let name = target.name();
        if report.nothing_applied() {
            return IpcResponse::Error {
                message: cat3("freeze failed for ", &name, ": no process could be suspended"),
            };
        }
        let n = format_u64(report.applied.len() as u64);
        IpcResponse::Done { message: cat4("froze ", &n, " process(es) for ", &name) }
    }

    /// Takes the report on a manual thaw.
    ///
    /// Only what was released, or is dead, is retired from the journal.
    pub fn finish_ipc_thaw(&mut self, target: &Target, report: &ApplyReport, now: Nanos) -> (r:
        IpcResponse)
        requires
            old(self).wf(),
        ensures
            final(self).wf(),
            final(self)@ == old(self)@.manual_thawed(target@, report@.settled(), now),
            if report@.applied.len() == 0 {
                says_error(
                    r,
                    "thaw failed for "@ + target_text(target@)
                        + ": no process could be resumed"@,
                )
            } else {
                says_ok(
                    r,
                    "thawed "@ + decimal(report@.applied.len()) + " process(es) for "@
                        + target_text(target@),
                )
            },
    {
        let settled = report.settled_pids();
        let key = journal_key_for(target);
        self.retire(&key, &settled);
        if let Target::App { app: _ } = target {
            self.enter_state(&key, AppState::Background, now);
        }
        let name = target.name();
        if report.nothing_applied() {
            return IpcResponse::Error {
                message: cat3("thaw failed for ", &name, ": no process could be resumed"),
            };
        }
        let n = format_u64(report.applied.len() as u64);
        IpcResponse::Done { message: cat4("thawed ", &n, " process(es) for ", &name) }
    }

    fn background_suspended(&mut self, now: Nanos)
        requires
            old(self).wf(),
        ensures
            final(self).wf(),
            final(self)@ == old(self)@.all_backgrounded(now),
    {
        let ghost m0 = self@;
        let keys = self.registry.keys();
        let ghost order = self@.reg.order;
        let mut i: usize = 0;
        proof {
            self.registry.lemma_sound();
        }
        while i < keys.len()
            invariant
                i <= keys@.len(),
                self.wf(),
                order == m0.reg.order,
                m0.reg.sound(),
                keys@.map_values(|s: String| s@) == order,
                self@ == (EngineModel {
                    reg: RegistryModel { apps: self@.reg.apps, ..m0.reg },
                    ..m0
                }),
                self@.reg.apps.dom() == m0.reg.apps.dom(),
                forall|k: Seq<char>| #[trigger]
                    self@.reg.apps.contains_key(k) ==> self@.reg.apps[k] == (if order.take(
                        i as int,
                    ).contains(k) {
                        m0.reg.apps[k].laid_off(now)
                    } else {
                        m0.reg.apps[k]
                    }),
            decreases keys@.len() - i,
        {
            let ghost apps = self@.reg.apps;
            let ghost k0 = order[i as int];
            let key = &keys[i];
            proof {
                assert(keys@.map_values(|s: String| s@)[i as int] == key@);
                lemma_take_contains(order, i as int);
                assert(order.contains(k0));
                assert(m0.reg.apps.contains_key(k0));
                assert(apps.contains_key(k0));
                assert(!order.take(i as int).contains(k0)) by {
                    if order.take(i as int).contains(k0) {
                        let j = choose|j: int| 0 <= j < i && order.take(i as int)[j] == k0;
                        assert(order[j] == order[i as int]);
                    }
                }
            }
            if let Some(entry) = self.registry.get_mut(key) {
                if entry.state() == AppState::Frozen || entry.state() == AppState::Throttled {
                    entry.set_state(AppState::Background, now);
                    entry.cancel_all_timers();
                }
            }
            proof {
                assert(self@.reg.apps =~= apps.insert(k0, m0.reg.apps[k0].laid_off(now)));
                assert(self@.reg.apps.dom() =~= m0.reg.apps.dom());
            }
            i = i + 1;
        }
        proof {
            assert(order.take(order.len() as int) =~= order);
            assert(self@.reg.apps =~= m0.all_backgrounded(now).reg.apps);
        }
    }

    /// Takes the outcomes of a release of everything that is recorded.
    pub fn finish_ipc_thaw_all(
        &mut self,
        orders: &Vec<RecordedOrder>,
        outcomes: &Vec<Vec<Delivery>>,
        now: Nanos,
    ) -> (r: IpcResponse)
        requires
            old(self).wf(),
            outcomes@.len() == orders@.len(),
            forall|i: int|
                0 <= i < orders@.len() ==> (#[trigger] outcomes@[i])@.len()
                    == orders@[i].procs@.len(),
        ensures
            final(self).wf(),
            final(self)@ == old(self)@.released_all(
                recorded_keys(orders@),
                all_settled(orders@, outcomes@),
            ).tidied().all_backgrounded(now),
            if clamped(total_refused(outcomes@)) > 0 {
                says_error(
                    r,
                    "released "@ + decimal(clamped(total_done(outcomes@)) as nat)
                        + " process(es), but "@ + decimal(
                        clamped(total_refused(outcomes@)) as nat,
                    ) + " could not be resumed and remain recorded in the journal"@,
                )
            } else {
                says_ok(
                    r,
                    "released "@ + decimal(clamped(total_done(outcomes@)) as nat)
                        + " process(es)"@,
                )
            },
    {
        let (released, stuck) = self.finish_release_recorded(orders, outcomes);
        self.background_suspended(now);
        let n = format_u64(released as u64);
        if stuck > 0 {
            let k = format_u64(stuck as u64);
            return IpcResponse::Error {
                message: cat5(
                    "released ",
                    &n,
                    " process(es), but ",
                    &k,
                    " could not be resumed and remain recorded in the journal",
                ),
            };
        }
        IpcResponse::Done { message: cat3("released ", &n, " process(es)") }
    }

    /// Handles a power source override.
    ///
    /// Forcing an unknown source is refused, and changes nothing.
    pub fn ipc_set_power_override(&mut self, source: Option<PowerSource>, now: Nanos) -> (r: IpcStep)
        requires
            old(self).wf(),
        ensures
            final(self).wf(),
            if source == Some(PowerSource::Unknown) {
                &&& *final(self) == *old(self)
                &&& r matches IpcStep::Reply(reply) && says_error(
                    reply,
                    "cannot force power source to 'unknown'"@,
                )
            } else {
                let m = EngineModel { forced: source, ..old(self)@ };
                &&& final(self)@ == m.settled(old(self)@.manages(), now)
                &&& r matches IpcStep::Release { orders, reply } && order_views(orders@)
                    == m.unmanaged_orders() && says_ok(
                    reply,
                    "power source override set to "@ + override_label(source),
                )
            },
    {
        if let Some(PowerSource::Unknown) = source {
            return IpcStep::Reply(
                IpcResponse::Error {
                    message: "cannot force power source to 'unknown'".to_owned(),
                },
            );
        }
        let orders = self.handle_set_power_override(source, now);
        let label = match source {
            Some(s) => s.name(),
            None => "auto",
        };
        IpcStep::Release {
            orders,
            reply: IpcResponse::Done { message: cat2("power source override set to ", label) },
        }
    }

    /// What a request leads to, and what it changes.
    pub open spec fn handled(
        m: EngineModel,
        after: EngineModel,
        request: IpcRequest,
        r: IpcStep,
        table: ProcessTable,
        now: Nanos,
    ) -> bool {
        match request {
            IpcRequest::List => {
                &&& after == m
                &&& r matches IpcStep::Reply(IpcResponse::AppList { apps })
                &&& apps@.len() == m.reg.order.len()
                &&& forall|i: int|
                    0 <= i < apps@.len() ==> (#[trigger] apps@[i])@ == m.info(
                        m.reg.order[i],
                        table,
                        now,
                    )
            },
            IpcRequest::Status => {
                &&& after == m
                &&& r matches IpcStep::Reply(reply)
                &&& Engine::reports_status(m, reply, table, now)
            },
            IpcRequest::Stats => {
                &&& after == m
                &&& r == IpcStep::Reply(IpcResponse::Stats { metrics: m.metrics.reading() })
            },
            IpcRequest::Freeze { target } => match m.target_procs(target@, table) {
                Ok(procs) => {
                    &&& after == m.manual_planned(target@, procs, table)
                    &&& if m.manual_procs(procs, table).len() > 0 {
                        &&& r matches IpcStep::Freeze { target: t, procs: p }
                        &&& t == target
                        &&& p@ == m.manual_procs(procs, table)
                    } else {
                        &&& r matches IpcStep::Reply(reply)
                        &&& says_error(
                            reply,
                            "refusing to freeze "@ + target_text(target@) + ": "@
                                + m.manual_refusal(procs, table),
                        )
                    }
                },
                Err(message) => {
                    &&& after == m
                    &&& r matches IpcStep::Reply(reply)
                    &&& says_error(reply, message)
                },
            },
            IpcRequest::Thaw { target } => {
                &&& after == m
                &&& match m.target_procs(target@, table) {
                    Ok(procs) => {
                        &&& r matches IpcStep::Thaw { target: t, procs: p }
                        &&& t == target
                        &&& p@ == procs
                    },
                    Err(message) => {
                        &&& r matches IpcStep::Reply(reply)
                        &&& says_error(reply, message)
                    },
                }
            },
            IpcRequest::ThawAll => {
                &&& after == m
                &&& r matches IpcStep::ThawAll { recorded: orders }
                &&& recorded_keys(orders@).no_duplicates()
                &&& forall|k: Seq<char>| #[trigger]
                    m.journal.contains_key(k) <==> recorded_keys(orders@).contains(k)
                &&& forall|i: int|
                    0 <= i < orders@.len() ==> (#[trigger] orders@[i]).procs@ == procs_in(
                        m.journal,
                        orders@[i].key@,
                    )
            },
            IpcRequest::ReloadConfig => after == m && r is Reload,
            IpcRequest::SetPowerOverride { source } => if source == Some(PowerSource::Unknown) {
                &&& after == m
                &&& r matches IpcStep::Reply(reply)
                &&& says_error(reply, "cannot force power source to 'unknown'"@)
            } else {
                let forced = EngineModel { forced: source, ..m };
                &&& after == forced.settled(m.manages(), now)
                &&& r matches IpcStep::Release { orders, reply }
                &&& order_views(orders@) == forced.unmanaged_orders()
                &&& says_ok(reply, "power source override set to "@ + override_label(source))
            },
            IpcRequest::Shutdown => {
                &&& after == m
                &&& r matches IpcStep::Shutdown { reply }
                &&& says_ok(reply, "shutdown scheduled"@)
            },
        }
    }

    /// Handles a request.
    pub fn handle_ipc(&mut self, request: IpcRequest, table: &ProcessTable, now: Nanos) -> (r:
        IpcStep)
        requires
            old(self).wf(),
        ensures
            final(self).wf(),
            Engine::handled(old(self)@, final(self)@, request, r, *table, now),
    {
        match request {
            IpcRequest::List => IpcStep::Reply(
                IpcResponse::AppList { apps: self.list(table, now) },
            ),
            IpcRequest::Status => IpcStep::Reply(self.status(table, now)),
            IpcRequest::Stats => IpcStep::Reply(
                IpcResponse::Stats { metrics: self.metrics.snapshot() },
            ),
            IpcRequest::Freeze { target } => match self.ipc_freeze(&target, table) {
                Ok(procs) => IpcStep::Freeze { target, procs },
                Err(reply) => IpcStep::Reply(reply),
            },
            IpcRequest::Thaw { target } => match self.resolve_target(&target, table) {
                Ok(procs) => IpcStep::Thaw { target, procs },
                Err(message) => IpcStep::Reply(IpcResponse::Error { message }),
            },
            IpcRequest::ThawAll => IpcStep::ThawAll { recorded: self.recorded_releases() },
            IpcRequest::ReloadConfig => IpcStep::Reload,
            IpcRequest::SetPowerOverride { source } => self.ipc_set_power_override(source, now),
            IpcRequest::Shutdown => IpcStep::Shutdown {
                reply: IpcResponse::Done { message: "shutdown scheduled".to_owned() },
            },
        }
    }
}

} // verus!
