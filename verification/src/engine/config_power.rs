//! Configuration reloads, power source changes and shutdown.
use vstd::prelude::*;

use crate::assoc::{lemma_take_contains, Assoc};
use crate::config::matching::{patterns_accepted, refuses, RulesEngine};
use crate::config::{Action, Config, ResolvedPolicy};
use crate::engine::focus::order_views;
use crate::engine::model::{mismatched, suspended, EngineModel};
use crate::engine::rate_limit::{LogKey, RateLimiter};
use crate::engine::{topics, Engine, ReleaseOrder, LOG_SUPPRESSION_WINDOW};
use crate::error::ConfigError;
use crate::metrics::{bump, zero_metrics, Metrics};
use crate::state::app_entry::AppModel;
use crate::state::journal::{procs_in, FreezeJournal, JournalRecord, Pending};
use crate::state::machine::AppState;
use crate::state::process_set::copy_handles;
use crate::state::registry::{AppRegistry, RegistryModel};
use crate::system::apply::{ApplyReport, ReportModel};
use crate::system::cgroup::CgroupCapabilities;
use crate::system::freeze::{count_done, Delivery};
use crate::system::power::PowerSource;
use crate::system::process::{ProcessHandle, ProcessTable};
use crate::system::protection::ProtectionPolicy;
use crate::time::{deadline, Nanos};

verus! {

/// What a configuration reload leads to.
#[derive(Debug)]
pub struct ReloadStep {
    /// Applications to release because their policy changed.
    pub orders: Vec<ReleaseOrder>,
    /// Whether applications were managed before.
    pub was_managing: bool,
}

/// Recorded processes that are to be resumed.
#[derive(Debug)]
pub struct RecordedOrder {
    pub key: String,
    pub procs: Vec<ProcessHandle>,
}

/// The keys of a list of recorded orders.
pub open spec fn recorded_keys(v: Seq<RecordedOrder>) -> Seq<Seq<char>> {
    v.map_values(|o: RecordedOrder| o.key@)
}

/// The PIDs that need no follow-up after processes were resumed: those that
/// were, and those that are dead.
pub open spec fn settled_pids(procs: Seq<ProcessHandle>, outcomes: Seq<Delivery>) -> Seq<u32>
    decreases procs.len(),
{
    if procs.len() == 0 || outcomes.len() != procs.len() {
        Seq::empty()
    } else {
        let before = settled_pids(procs.drop_last(), outcomes.drop_last());
        if outcomes.last() is Refused {
            before
        } else {
            before.push(procs.last().pid)
        }
    }
}

/// How many processes could not be resumed.
pub open spec fn count_refused(outcomes: Seq<Delivery>) -> nat
    decreases outcomes.len(),
{
    if outcomes.len() == 0 {
        0
    } else {
        count_refused(outcomes.drop_last()) + if outcomes.last() is Refused {
            1nat
        } else {
            0nat
        }
    }
}

/// The PIDs that need no follow-up, entry by entry.
pub open spec fn all_settled(orders: Seq<RecordedOrder>, outcomes: Seq<Vec<Delivery>>) -> Seq<
    Seq<u32>,
> {
    Seq::new(orders.len(), |i: int| settled_pids(orders[i].procs@, outcomes[i]@))
}

/// How many processes were resumed in all.
pub open spec fn total_done(outcomes: Seq<Vec<Delivery>>) -> nat
    decreases outcomes.len(),
{
    if outcomes.len() == 0 {
        0
    } else {
        total_done(outcomes.drop_last()) + count_done(outcomes.last()@)
    }
}

/// How many processes could not be resumed in all.
pub open spec fn total_refused(outcomes: Seq<Vec<Delivery>>) -> nat
    decreases outcomes.len(),
{
    if outcomes.len() == 0 {
        0
    } else {
        total_refused(outcomes.drop_last()) + count_refused(outcomes.last()@)
    }
}

/// A count as a machine integer holds it, at most the largest.
pub open spec fn clamped(n: nat) -> usize {
    if n <= usize::MAX {
        n as usize
    } else {
        usize::MAX
    }
}

fn add_clamped(a: usize, b: usize) -> (r: usize)
    ensures
        r == clamped(a as nat + b as nat),
{
    if b <= usize::MAX - a {
        a + b
    } else {
        usize::MAX
    }
}

/// The reports, as they are spoken of.
pub open spec fn report_views(v: Seq<ApplyReport>) -> Seq<ReportModel> {
    v.map_values(|r: ApplyReport| r@)
}

struct Tally {
    done: Vec<u32>,
    resumed: usize,
    stuck: usize,
}

fn tally(procs: &Vec<ProcessHandle>, outcomes: &Vec<Delivery>) -> (r: Tally)
    requires
        outcomes@.len() == procs@.len(),
    ensures
        r.done@ == settled_pids(procs@, outcomes@),
        r.resumed == count_done(outcomes@),
        r.stuck == count_refused(outcomes@),
{
    let mut done: Vec<u32> = Vec::new();
    let mut resumed: usize = 0;
    let mut stuck: usize = 0;
    let mut i: usize = 0;
    proof {
        assert(procs@.take(0) =~= Seq::empty());
        assert(outcomes@.take(0) =~= Seq::empty());
    }
    while i < procs.len()
        invariant
            i <= procs@.len(),
            outcomes@.len() == procs@.len(),
            done@ == settled_pids(procs@.take(i as int), outcomes@.take(i as int)),
            resumed == count_done(outcomes@.take(i as int)),
            stuck == count_refused(outcomes@.take(i as int)),
            resumed <= i,
            stuck <= i,
        decreases procs@.len() - i,
    {
        proof {
            assert(procs@.take(i + 1).drop_last() =~= procs@.take(i as int));
            assert(outcomes@.take(i + 1).drop_last() =~= outcomes@.take(i as int));
        }
        match &outcomes[i] {
            Delivery::Dead => done.push(procs[i].pid),
            Delivery::Done => {
                done.push(procs[i].pid);
                resumed = resumed + 1;
            },
            Delivery::Refused(_) => {
                stuck = stuck + 1;
            },
        }
        i = i + 1;
    }
    proof {
        assert(procs@.take(procs@.len() as int) =~= procs@);
        assert(outcomes@.take(outcomes@.len() as int) =~= outcomes@);
    }
    Tally { done, resumed, stuck }
}

/// The engine at the start: nothing is tracked, and what the journal holds is
/// recorded.
pub open spec fn initial(
    config: Config,
    journal: Map<Seq<char>, JournalRecord>,
    owed: Pending,
    in_memory: bool,
    journal_path: Seq<char>,
    caps: CgroupCapabilities,
    desktops: Map<Seq<char>, Seq<char>>,
    now: Nanos,
) -> EngineModel {
    EngineModel {
        reg: RegistryModel { apps: Map::empty(), order: Seq::empty() },
        config,
        caps,
        journal,
        owed,
        in_memory,
        journal_path,
        owners: Map::empty(),
        seen: Seq::empty(),
        notices: Seq::empty(),
        failures: Map::empty(),
        metrics: zero_metrics(),
        desktops,
        enabled: config.defaults.enabled,
        power: PowerSource::Unknown,
        forced: None,
        start: now,
        reconcile_interval: config.defaults.reconcile_interval,
        dbus_check: config.defaults.protection.dbus_check,
        dbus_refresh_interval: config.defaults.protection.dbus_refresh_interval,
        last_refresh: None,
        in_flight: false,
    }
}

impl Engine {
    /// Constructs an engine **without** a freeze journal on disk.
    ///
    /// Processes stopped by it cannot be released after an abrupt exit. A daemon
    /// that suspends real applications uses [`Engine::with_journal`].
    pub fn new(config: Config, caps: CgroupCapabilities, now: Nanos) -> (r: Result<
        Self,
        ConfigError,
    >)
        ensures
            match r {
                Ok(e) => e.wf() && e@ == initial(
                    config,
                    Map::empty(),
                    Pending::Nothing,
                    true,
                    Seq::empty(),
                    caps,
                    Map::empty(),
                    now,
                ) && patterns_accepted(config),
                Err(err) => refuses(config, err),
            },
            no_patterns(config) ==> r is Ok,
    {
        let desktops: Assoc<String> = Assoc::new();
        proof {
            assert(desktops@.map_values(|s: String| s@) =~= Map::empty());
        }
        Engine::with_journal(config, FreezeJournal::disabled(), caps, desktops, now)
    }

    /// Constructs an engine backed by a specific journal.
    ///
    /// `desktops` gives the desktop file of an executable. Fails where a pattern
    /// of a rule does not compile.
    pub fn with_journal(
        config: Config,
        journal: FreezeJournal,
        caps: CgroupCapabilities,
        desktops: Assoc<String>,
        now: Nanos,
    ) -> (r: Result<Self, ConfigError>)
        requires
            journal.wf(),
            desktops.wf(),
        ensures
            match r {
                Ok(e) => e.wf() && e@ == initial(
                    config,
                    journal@,
                    journal.owed(),
                    journal.in_memory(),
                    journal.file_path(),
                    caps,
                    desktops@.map_values(|s: String| s@),
                    now,
                ) && patterns_accepted(config),
                Err(err) => refuses(config, err),
            },
            no_patterns(config) ==> r is Ok,
    {
        let enabled = config.defaults.enabled;
        let reconcile_interval = config.defaults.reconcile_interval;
        let protection = config.defaults.protection;
        match RulesEngine::new(config) {
            Ok(rules) => {
                let e = Engine {
                    registry: AppRegistry::new(),
                    rules,
                    caps,
                    journal,
                    protection: ProtectionPolicy::default(),
                    limiter: RateLimiter::new(LOG_SUPPRESSION_WINDOW),
                    notices: Vec::new(),
                    failures: Assoc::new(),
                    metrics: Metrics::new(),
                    desktops,
                    enabled,
                    power_source: PowerSource::Unknown,
                    forced_power_source: None,
                    start_time: now,
                    reconcile_interval,
                    dbus_check: protection.dbus_check,
                    dbus_refresh_interval: protection.dbus_refresh_interval,
                    last_dbus_refresh: None,
                    reconcile_in_flight: false,
                };
                proof {
                    assert(topics(e.notices@) =~= Seq::empty());
                }
                Ok(e)
            },
            Err(err) => Err(err),
        }
    }

    // --- Accessors ---

    /// How often tracked processes are to be checked.
    pub fn reconcile_interval(&self) -> (r: Nanos)
        ensures
            r == self@.reconcile_interval,
    {
        self.reconcile_interval
    }

    /// What the kernel lets the daemon do.
    pub fn capabilities(&self) -> (r: CgroupCapabilities)
        ensures
            r == self@.caps,
    {
        self.caps
    }

    /// The messages that are to be logged.
    pub fn take_notices(&mut self) -> (r: Vec<LogKey>)
        requires
            old(self).wf(),
        ensures
            final(self).wf(),
            topics(r@) == old(self)@.notices,
            final(self)@ == (EngineModel { notices: Seq::empty(), ..old(self)@ }),
    {
        let mut out: Vec<LogKey> = Vec::new();
        let ghost all = self@.notices;
        let mut i: usize = 0;
        proof {
            assert(topics(out@) =~= all.take(0));
        }
        while i < self.notices.len()
            invariant
                i <= all.len(),
                all == topics(self.notices@),
                topics(out@) == all.take(i as int),
            decreases all.len() - i,
        {
            let ghost before = out@;
            let key = self.notices[i].copy();
            let ghost t = key@;
            out.push(key);
            proof {
                assert(all[i as int] == self.notices@[i as int]@);
                assert(topics(out@) =~= topics(before).push(t));
                assert(all.take(i + 1) =~= all.take(i as int).push(all[i as int]));
            }
            i = i + 1;
        }
        proof {
            assert(all.take(all.len() as int) =~= all);
        }
        self.notices = Vec::new();
        proof {
            assert(topics(self.notices@) =~= Seq::empty());
        }
        out
    }

    /// The journal.
    pub fn journal(&self) -> (r: &FreezeJournal)
        requires
            self.wf(),
        ensures
            r.wf(),
            r@ == self@.journal,
            r.owed() == self@.owed,
            r.in_memory() == self@.in_memory,
            r.file_path() == self@.journal_path,
    {
        &self.journal
    }

    /// Takes the write to the journal's file that is owed.
    pub fn take_pending(&mut self) -> (r: Pending)
        requires
            old(self).wf(),
        ensures
            final(self).wf(),
            r == old(self)@.owed,
            final(self)@ == (EngineModel { owed: Pending::Nothing, ..old(self)@ }),
    {
        self.journal.take_pending()
    }

    /// Counts processes that were released at startup.
    pub fn count_recovered(&mut self, thawed: u64)
        requires
            old(self).wf(),
        ensures
            final(self).wf(),
            final(self)@ == old(self)@.with_metrics(
                Metrics {
                    journal_recovered_total: crate::metrics::bumped(
                        old(self)@.metrics.journal_recovered_total,
                        thawed,
                    ),
                    ..old(self)@.metrics
                },
            ),
    {
        self.metrics.journal_recovered_total = bump(self.metrics.journal_recovered_total, thawed);
    }

    // --- Configuration ---

    fn replace_policy(&mut self, key: &str, policy: ResolvedPolicy, now: Nanos)
        requires
            old(self).wf(),
            old(self)@.tracks(key@),
        ensures
            final(self).wf(),
            final(self)@ == old(self)@.with_app(
                key@,
                old(self)@.app(key@).rematched(policy@, now),
            ),
    {
        let ghost m = self@;
        let ghost p = policy@;
        if let Some(entry) = self.registry.get_mut(key) {
            let was_ignored = matches!(entry.policy().action, Action::Ignore);
            if entry.state() == AppState::Background {
                if matches!(policy.action, Action::Ignore) {
                    entry.cancel_suspend_timer();
                } else if !was_ignored {
                    entry.set_suspend_timer(deadline(now, policy.suspend_delay));
                }
            }
            entry.set_policy(policy);
        }
        proof {
            assert(self@ == m.with_app(key@, m.app(key@).rematched(p, now)));
        }
    }

    fn rematch_app(&mut self, key: &str, table: &ProcessTable, now: Nanos)
        requires
            old(self).wf(),
            old(self)@.tracks(key@),
        ensures
            final(self).wf(),
            final(self)@ == old(self)@.rematched(key@, *table, now),
    {
        let (name, window) = match self.registry.get(key) {
            Some(entry) => (entry.app_id().as_str().to_owned(), entry.window_info().copy()),
            None => {
                return;
            },
        };
        let policy = self.resolve_policy(&name, &window, table, now);
        self.replace_policy(key, policy, now);
    }

    fn rematch_tracked_apps(&mut self, table: &ProcessTable, now: Nanos)
        requires
            old(self).wf(),
        ensures
            final(self).wf(),
            final(self)@ == old(self)@.rematched_all(old(self)@.reg.order, *table, now),
            final(self)@.reg.order == old(self)@.reg.order,
            final(self)@.manages() == old(self)@.manages(),
    {
        let ghost m0 = self@;
        let keys = self.registry.keys();
        let ghost order = m0.reg.order;
        let mut i: usize = 0;
        proof {
            self.registry.lemma_sound();
            assert(order.take(0) =~= Seq::empty());
        }
        while i < keys.len()
            invariant
                i <= keys@.len(),
                self.wf(),
                order == m0.reg.order,
                m0.reg.sound(),
                keys@.map_values(|s: String| s@) == order,
                self@ == m0.rematched_all(order.take(i as int), *table, now),
                self@.reg.order == order,
                self@.reg.apps.dom() == m0.reg.apps.dom(),
                self@.manages() == m0.manages(),
            decreases keys@.len() - i,
        {
            let key = &keys[i];
            proof {
                assert(keys@.map_values(|s: String| s@)[i as int] == key@);
                assert(order.take(i + 1).drop_last() =~= order.take(i as int));
                assert(order.contains(order[i as int]));
                assert(m0.reg.apps.contains_key(key@));
                assert(self@.reg.apps.contains_key(key@));
            }
            let ghost before = self@;
            self.rematch_app(key, table, now);
            proof {
                assert(self@.reg.apps.dom() =~= before.reg.apps.dom());
            }
            i = i + 1;
        }
        proof {
            assert(order.take(order.len() as int) =~= order);
        }
    }

    /// Starts a configuration reload.
    ///
    /// A configuration whose patterns do not compile changes nothing. Else the
    /// policies of all tracked applications follow it, and the result says which
    /// applications are to be released on that account. When they have been,
    /// [`Engine::settle_management`] is next.
    pub fn begin_config_reload(&mut self, config: Config, table: &ProcessTable, now: Nanos) -> (r:
        Result<ReloadStep, ConfigError>)
        requires
            old(self).wf(),
        ensures
            final(self).wf(),
            match r {
                Ok(step) => {
                    &&& final(self)@ == old(self)@.reloaded(config, *table, now)
                    &&& order_views(step.orders@) == final(self)@.mismatched_orders()
                    &&& step.was_managing == old(self)@.manages()
                    &&& patterns_accepted(config)
                },
                Err(e) => refuses(config, e) && *final(self) == *old(self),
            },
            no_patterns(config) ==> r is Ok,
    {
        let ghost m0 = self@;
        let was_managing = self.should_manage();
        let enabled = config.defaults.enabled;
        let ghost c = config;
        match RulesEngine::new(config) {
            Ok(rules) => {
                self.rules = rules;
                self.enabled = enabled;
                self.metrics.config_reloads_total = bump(self.metrics.config_reloads_total, 1);
                let ghost m1 = self@;
                self.rematch_tracked_apps(table, now);
                proof {
                    assert(m1.reg.order == m0.reg.order);
                    assert(self@ == m0.reloaded(c, *table, now));
                }
                let orders = self.mismatched_releases();
                Ok(ReloadStep { orders, was_managing })
            },
            Err(e) => Err(e),
        }
    }

    fn mismatched_releases(&self) -> (r: Vec<ReleaseOrder>)
        requires
            self.wf(),
        ensures
            order_views(r@) == self@.mismatched_orders(),
    {
        let ghost pick = |a: AppModel| mismatched(a.state, a.policy.action);
        let ghost order = self@.reg.order;
        let mut out: Vec<ReleaseOrder> = Vec::new();
        let mut i: usize = 0;
        proof {
            assert(order.take(0) =~= Seq::empty());
            assert(order_views(out@) =~= Seq::empty());
        }
        while i < self.registry.len()
            invariant
                i <= order.len(),
                order == self@.reg.order,
                self.wf(),
                pick == (|a: AppModel| mismatched(a.state, a.policy.action)),
                order_views(out@) == self@.orders_for(order.take(i as int), pick),
            decreases order.len() - i,
        {
            let ghost before = out@;
            let key = self.registry.key_at(i);
            let entry = self.registry.entry_at(i);
            proof {
                assert(order.take(i + 1).drop_last() =~= order.take(i as int));
                assert(order.take(i + 1).last() == key@);
            }
            let hit = match entry.state() {
                AppState::Frozen => !matches!(entry.policy().action, Action::Freeze),
                AppState::Throttled => !matches!(entry.policy().action, Action::Throttle),
                _ => false,
            };
            if hit {
                if let Some(o) = self.release_order_for(key, entry.app_id().as_str()) {
                    let ghost v = o@;
                    out.push(o);
                    proof {
                        assert(order_views(out@) =~= order_views(before).push(v));
                    }
                }
            }
            i = i + 1;
        }
        proof {
            assert(order.take(order.len() as int) =~= order);
        }
        out
    }

    /// Takes the report on the release of an application whose policy changed.
    pub fn finish_rematch(&mut self, order: &ReleaseOrder, report: &ApplyReport, now: Nanos)
        requires
            old(self).wf(),
        ensures
            final(self).wf(),
            final(self)@ == old(self)@.rematch_released(order@, report@, now),
    {
        let delay = match self.registry.get(&order.key) {
            Some(entry) => if matches!(entry.policy().action, Action::Ignore) {
                None
            } else {
                Some(entry.policy().suspend_delay)
            },
            None => None,
        };
        self.restore_to_background(&order.key, &order.name, report, now);
        if let Some(d) = delay {
            self.schedule_suspend(&order.key, d, now);
        }
    }

    /// Settles whether applications are managed, after something that decides it
    /// changed.
    ///
    /// Where they are not, everything that is suspended is to be released: the
    /// result holds the orders. Where they are and were not, the suspend timers
    /// start.
    pub fn settle_management(&mut self, was_managing: bool, now: Nanos) -> (r: Vec<ReleaseOrder>)
        requires
            old(self).wf(),
        ensures
            final(self).wf(),
            final(self)@ == old(self)@.settled(was_managing, now),
            order_views(r@) == old(self)@.unmanaged_orders(),
    {
        if !self.should_manage() {
            return self.thaw_all();
        }
        if !was_managing {
            self.start_management(now);
        }
        let out: Vec<ReleaseOrder> = Vec::new();
        proof {
            assert(order_views(out@) =~= Seq::empty());
        }
        out
    }

    /// The orders to release everything that is suspended.
    pub fn thaw_all(&self) -> (r: Vec<ReleaseOrder>)
        requires
            self.wf(),
        ensures
            order_views(r@) == self@.suspended_orders(),
    {
        let ghost pick = |a: AppModel| suspended(a.state);
        let ghost order = self@.reg.order;
        let mut out: Vec<ReleaseOrder> = Vec::new();
        let mut i: usize = 0;
        proof {
            assert(order.take(0) =~= Seq::empty());
            assert(order_views(out@) =~= Seq::empty());
        }
        while i < self.registry.len()
            invariant
                i <= order.len(),
                order == self@.reg.order,
                self.wf(),
                pick == (|a: AppModel| suspended(a.state)),
                order_views(out@) == self@.orders_for(order.take(i as int), pick),
            decreases order.len() - i,
        {
            let ghost before = out@;
            let key = self.registry.key_at(i);
            let entry = self.registry.entry_at(i);
            proof {
                assert(order.take(i + 1).drop_last() =~= order.take(i as int));
                assert(order.take(i + 1).last() == key@);
            }
            if entry.state() == AppState::Frozen || entry.state() == AppState::Throttled {
                if let Some(o) = self.release_order_for(key, entry.app_id().as_str()) {
                    let ghost v = o@;
                    out.push(o);
                    proof {
                        assert(order_views(out@) =~= order_views(before).push(v));
                    }
                }
            }
            i = i + 1;
        }
        proof {
            assert(order.take(order.len() as int) =~= order);
        }
        out
    }

    /// Takes the reports on the release of everything that was suspended.
    pub fn finish_thaw_all(
        &mut self,
        orders: &Vec<ReleaseOrder>,
        reports: &Vec<ApplyReport>,
        now: Nanos,
    )
        requires
            old(self).wf(),
            reports@.len() == orders@.len(),
        ensures
            final(self).wf(),
            final(self)@ == old(self)@.activated_all(
                order_views(orders@),
                report_views(reports@),
                now,
            ),
    {
        let ghost m0 = self@;
        let ghost os = order_views(orders@);
        let ghost rs = report_views(reports@);
        let mut i: usize = 0;
        proof {
            assert(os.take(0) =~= Seq::empty());
            assert(rs.take(0) =~= Seq::empty());
        }
        while i < orders.len()
            invariant
                i <= orders@.len(),
                reports@.len() == orders@.len(),
                os == order_views(orders@),
                rs == report_views(reports@),
                self.wf(),
                self@ == m0.activated_all(os.take(i as int), rs.take(i as int), now),
            decreases orders@.len() - i,
        {
            proof {
                assert(os.take(i + 1).drop_last() =~= os.take(i as int));
                assert(rs.take(i + 1).drop_last() =~= rs.take(i as int));
                assert(os[i as int] == orders@[i as int]@);
                assert(rs[i as int] == reports@[i as int]@);
            }
            self.activate(&orders[i].key, &orders[i].name, &reports[i], now);
            i = i + 1;
        }
        proof {
            assert(os.take(os.len() as int) =~= os);
            assert(rs.take(rs.len() as int) =~= rs);
        }
    }

    // --- Power source ---

    /// Handles a change of the detected power source. The result holds the
    /// orders to release what is suspended, where applications are not managed
    /// now.
    pub fn handle_power_change(&mut self, source: PowerSource, now: Nanos) -> (r: Vec<ReleaseOrder>)
        requires
            old(self).wf(),
        ensures
            final(self).wf(),
            final(self)@ == (EngineModel { power: source, ..old(self)@ }).settled(
                old(self)@.manages(),
                now,
            ),
            order_views(r@) == (EngineModel { power: source, ..old(self)@ }).unmanaged_orders(),
    {
        let was = self.should_manage();
        self.power_source = source;
        self.settle_management(was, now)
    }

    /// Forces a power source, or returns to the detected one. The result holds
    /// the orders to release what is suspended, where applications are not
    /// managed now.
    pub fn handle_set_power_override(&mut self, source: Option<PowerSource>, now: Nanos) -> (r: Vec<
        ReleaseOrder,
    >)
        requires
            old(self).wf(),
        ensures
            final(self).wf(),
            final(self)@ == (EngineModel { forced: source, ..old(self)@ }).settled(
                old(self)@.manages(),
                now,
            ),
            order_views(r@) == (EngineModel { forced: source, ..old(self)@ }).unmanaged_orders(),
    {
        let was = self.should_manage();
        self.forced_power_source = source;
        self.settle_management(was, now)
    }

    // --- Releasing what is recorded ---

    /// Everything the journal records, entry by entry: what was signalled,
    /// including descendants and applications that are tracked no more.
    pub fn recorded_releases(&self) -> (r: Vec<RecordedOrder>)
        requires
            self.wf(),
        ensures
            recorded_keys(r@).no_duplicates(),
            forall|k: Seq<char>| #[trigger]
                self@.journal.contains_key(k) <==> recorded_keys(r@).contains(k),
            forall|i: int|
                0 <= i < r@.len() ==> (#[trigger] r@[i]).procs@ == procs_in(
                    self@.journal,
                    r@[i].key@,
                ),
    {
        let mut out: Vec<RecordedOrder> = Vec::new();
        let ghost ks = self.journal.keys();
        let mut i: usize = 0;
        proof {
            self.journal.lemma_keys();
            assert(recorded_keys(out@) =~= ks.take(0));
        }
        while i < self.journal.len()
            invariant
                i <= ks.len(),
                ks == self.journal.keys(),
                self.wf(),
                recorded_keys(out@) == ks.take(i as int),
                forall|j: int|
                    0 <= j < out@.len() ==> (#[trigger] out@[j]).procs@ == procs_in(
                        self@.journal,
                        out@[j].key@,
                    ),
            decreases ks.len() - i,
        {
            let ghost before = out@;
            let entry = self.journal.entry_at(i);
            let o = RecordedOrder {
                key: entry.app_id.clone(),
                procs: copy_handles(&entry.procs),
            };
            let ghost k = o.key@;
            out.push(o);
            proof {
                assert(recorded_keys(out@) =~= recorded_keys(before).push(k));
                assert(ks.take(i + 1) =~= ks.take(i as int).push(ks[i as int]));
            }
            i = i + 1;
        }
        proof {
            assert(ks.take(ks.len() as int) =~= ks);
        }
        out
    }

    /// Takes the outcomes of resuming everything the journal records.
    ///
    /// Returns how many processes were resumed and how many could not be. Only
    /// what was released, or is dead, is retired; the file is deleted once
    /// nothing is recorded any more, and never as a shortcut.
    pub fn finish_release_recorded(
        &mut self,
        orders: &Vec<RecordedOrder>,
        outcomes: &Vec<Vec<Delivery>>,
    ) -> (r: (usize, usize))
        requires
            old(self).wf(),
            outcomes@.len() == orders@.len(),
            forall|i: int|
                0 <= i < orders@.len() ==> (#[trigger] outcomes@[i])@.len()
                    == orders@[i].procs@.len(),
        ensures
            final(self).wf(),
            final(self)@ == old(self)@.released_all(
                recorded_keys(orders@),
                all_settled(orders@, outcomes@),
            ).tidied(),
            r.0 == clamped(total_done(outcomes@)),
            r.1 == clamped(total_refused(outcomes@)),
    {
        let ghost m0 = self@;
        let ghost ks = recorded_keys(orders@);
        let ghost ds = all_settled(orders@, outcomes@);
        let mut released: usize = 0;
        let mut stuck: usize = 0;
        let mut i: usize = 0;
        proof {
            assert(ks.take(0) =~= Seq::empty());
            assert(ds.take(0) =~= Seq::empty());
            assert(outcomes@.take(0) =~= Seq::empty());
        }
        while i < orders.len()
            invariant
                i <= orders@.len(),
                outcomes@.len() == orders@.len(),
                forall|j: int|
                    0 <= j < orders@.len() ==> (#[trigger] outcomes@[j])@.len()
                        == orders@[j].procs@.len(),
                ks == recorded_keys(orders@),
                ds == all_settled(orders@, outcomes@),
                self.wf(),
                self@ == m0.released_all(ks.take(i as int), ds.take(i as int)),
                released == clamped(total_done(outcomes@.take(i as int))),
                stuck == clamped(total_refused(outcomes@.take(i as int))),
            decreases orders@.len() - i,
        {
            proof {
                assert(ks.take(i + 1).drop_last() =~= ks.take(i as int));
                assert(ds.take(i + 1).drop_last() =~= ds.take(i as int));
                assert(outcomes@.take(i + 1).drop_last() =~= outcomes@.take(i as int));
                assert(ks[i as int] == orders@[i as int].key@);
                assert(ds[i as int] == settled_pids(
                    orders@[i as int].procs@,
                    outcomes@[i as int]@,
                ));
            }
            let t = tally(&orders[i].procs, &outcomes[i]);
            released = add_clamped(released, t.resumed);
            stuck = add_clamped(stuck, t.stuck);
            self.retire(&orders[i].key, &t.done);
            i = i + 1;
        }
        proof {
            assert(ks.take(ks.len() as int) =~= ks);
            assert(ds.take(ds.len() as int) =~= ds);
            assert(outcomes@.take(outcomes@.len() as int) =~= outcomes@);
        }
        let ghost m1 = self@;
        if self.journal.is_empty() {
            self.journal.clear();
        }
        proof {
            assert(self@ == m1.tidied());
        }
        (released, stuck)
    }

    /// Shuts down: all timers are off. Returns the cgroups that are to be
    /// removed.
    ///
    /// Before this everything suspended is released: by [`Engine::thaw_all`], and
    /// by [`Engine::recorded_releases`].
    pub fn shutdown(&mut self) -> (r: Vec<String>)
        requires
            old(self).wf(),
        ensures
            final(self).wf(),
            final(self)@ == old(self)@.quiet(),
            r@ == cgroups_of(old(self)@.reg.apps, old(self)@.reg.order),
    {
        let ghost m0 = self@;
        let keys = self.registry.keys();
        let ghost order = self@.reg.order;
        let mut out: Vec<String> = Vec::new();
        let mut i: usize = 0;
        proof {
            self.registry.lemma_sound();
            assert(order.take(0) =~= Seq::empty());
        }
        while i < keys.len()
            invariant
                i <= keys@.len(),
                self.wf(),
                order == m0.reg.order,
                m0.reg.sound(),
                keys@.map_values(|s: String| s@) == order,
                self@ == (EngineModel {
                    reg: RegistryModel { apps: self@.reg.apps, ..m0.reg },
                    ..m0
                }),
                self@.reg.apps.dom() == m0.reg.apps.dom(),
                forall|k: Seq<char>| #[trigger]
                    self@.reg.apps.contains_key(k) ==> self@.reg.apps[k] == (if order.take(
                        i as int,
                    ).contains(k) {
                        m0.reg.apps[k].without_timers()
                    } else {
                        m0.reg.apps[k]
                    }),
                out@ == cgroups_of(m0.reg.apps, order.take(i as int)),
            decreases keys@.len() - i,
        {
            let ghost apps = self@.reg.apps;
            let ghost k0 = order[i as int];
            let key = &keys[i];
            proof {
                assert(keys@.map_values(|s: String| s@)[i as int] == key@);
                lemma_take_contains(order, i as int);
                assert(order.contains(k0));
                assert(m0.reg.apps.contains_key(k0));
                assert(apps.contains_key(k0));
                assert(order.take(i + 1).drop_last() =~= order.take(i as int));
            }
            if let Some(entry) = self.registry.get_mut(key) {
                entry.cancel_all_timers();
                if let Some(path) = entry.cgroup_path_buf() {
                    out.push(path);
                }
            }
            proof {
                assert(self@.reg.apps =~= apps.insert(k0, m0.reg.apps[k0].without_timers()));
                assert(self@.reg.apps.dom() =~= m0.reg.apps.dom());
            }
            i = i + 1;
        }
        proof {
            assert(order.take(order.len() as int) =~= order);
            assert(self@.reg.apps =~= m0.quiet().reg.apps);
        }
        out
    }
}

/// The cgroups of a list of applications.
pub open spec fn cgroups_of(apps: Map<Seq<char>, AppModel>, keys: Seq<Seq<char>>) -> Seq<String>
    decreases keys.len(),
{
    if keys.len() == 0 {
        Seq::empty()
    } else {
        let before = cgroups_of(apps, keys.drop_last());
        match apps[keys.last()].cgroup {
            Some(path) => before.push(path),
            None => before,
        }
    }
}

/// Whether no rule of a configuration has a pattern.
pub open spec fn no_patterns(config: Config) -> bool {
    forall|i: int|
        0 <= i < config.rules@.len() ==> !crate::config::matching::has_pattern(
            #[trigger] config.rules@[i],
        )
}

} // verus!
