//! Focus changes, closed windows and releases ahead of use.
use vstd::prelude::*;

use crate::assoc::lemma_take_contains;
use crate::config::matching::{context_of, MatchContext};
use crate::config::{Action, ResolvedPolicy};
use crate::desktop::window::WindowInfo;
use crate::engine::model::{suspended, EngineModel, ReleaseModel};
use crate::engine::rate_limit::LogKey;
use crate::engine::{Engine, ReleaseOrder};
use crate::metrics::bump;
use crate::state::app_entry::{window_app, AppEntry, AppId, AppModel};
use crate::state::machine::AppState;
use crate::state::registry::{application_leaves_with_its_last_window, RegistryModel};
use crate::system::apply::{pids_of, ApplyReport};
use crate::system::power::PowerSource;
use crate::system::process::ProcessTable;
use crate::system::protection::{reason_view, ProtectionReason};
use crate::text::{ascii_lowercase, same_text};
use crate::time::{as_millis, deadline, elapsed, Nanos};

verus! {

/// What a focus change asks to be done to cgroups.
#[derive(Debug)]
pub struct FocusEffects {
    /// A process that is to be moved into a cgroup.
    pub move_pid: Option<(String, u32)>,
    /// An application for which a cgroup is to be made, with its processes.
    pub create_cgroup: Option<CgroupOrder>,
}

/// An order to make a cgroup for an application.
#[derive(Debug)]
pub struct CgroupOrder {
    pub key: String,
    pub name: String,
    pub pids: Vec<u32>,
}

/// The views of a list of orders.
pub open spec fn order_views(v: Seq<ReleaseOrder>) -> Seq<ReleaseModel> {
    v.map_values(|o: ReleaseOrder| o@)
}

impl Engine {
    /// Whether applications are to be managed: by the master switch, and by the
    /// mode for the power source that counts.
    pub fn should_manage(&self) -> (r: bool)
        ensures
            r == self@.manages(),
    {
        if !self.enabled {
            return false;
        }
        let source = match self.forced_power_source {
            Some(s) => s,
            None => self.power_source,
        };
        let mode = &self.rules.config().defaults.mode;
        match source {
            PowerSource::Ac => matches!(mode.ac, crate::config::PowerMode::Enable),
            PowerSource::Battery => matches!(mode.battery, crate::config::PowerMode::Enable),
            PowerSource::Unknown => true,
        }
    }

    /// Whether the application of a window must never be suspended.
    pub fn protection_verdict(&self, window: &WindowInfo, table: &ProcessTable) -> (r: Option<
        ProtectionReason,
    >)
        ensures
            reason_view(r) == self@.verdict(*window, *table),
    {
        let exe = match &window.executable {
            Some(e) => Some(e.as_str()),
            None => None,
        };
        self.protection.check_app(window.pid, exe, table)
    }

    fn rule_policy_for(&self, window: &WindowInfo) -> (r: ResolvedPolicy)
        requires
            self.wf(),
        ensures
            r@ == self@.rule_policy(*window),
    {
        let mut ctx = MatchContext::from_window(window);
        if let Some(exe) = &window.executable {
            if let Some(id) = self.desktops.get(exe) {
                ctx.desktop_file = id.clone();
            }
        }
        proof {
            assert(ctx@ == context_of(*window, self@.desktop_file(*window)));
        }
        self.rules.match_window(&ctx)
    }

    /// Resolves the policy of an application.
    ///
    /// Protection is applied here: an application forced to `Ignore` never gets
    /// a suspend timer, so "never frozen under any rule" holds by construction.
    pub(crate) fn resolve_policy(
        &mut self,
        name: &str,
        window: &WindowInfo,
        table: &ProcessTable,
        now: Nanos,
    ) -> (r: ResolvedPolicy)
        requires
            old(self).wf(),
        ensures
            final(self).wf(),
            final(self)@ == old(self)@.policy_resolved(name@, *window, *table, now),
            r@ == old(self)@.policy(*window, *table),
    {
        let policy = self.rule_policy_for(window);
        match self.protection_verdict(window, table) {
            Some(reason) => {
                if !matches!(policy.action, Action::Ignore) {
                    self.metrics.protection_blocks_total = bump(
                        self.metrics.protection_blocks_total,
                        1,
                    );
                    self.log(LogKey::app(name, "protected"), now);
                }
                ResolvedPolicy {
                    action: Action::Ignore,
                    matched_rule: Some(reason.exemption()),
                    ..policy
                }
            },
            None => policy,
        }
    }

    /// The order to release the application of a window that gains focus, where
    /// it is suspended.
    pub fn focus_release(&self, window: &WindowInfo) -> (r: Option<ReleaseOrder>)
        requires
            self.wf(),
        ensures
            ({
                let name = window_app(*window);
                let key = ascii_lowercase(name);
                match r {
                    Some(o) => self@.tracks(key) && suspended(self@.app(key).state) && o@
                        == self@.release_order(key, name),
                    None => !(self@.tracks(key) && suspended(self@.app(key).state)),
                }
            }),
    {
        let id = AppId::from_window(window);
        match self.registry.get(id.key()) {
            Some(entry) => match entry.state() {
                AppState::Frozen | AppState::Throttled => self.release_order_for(
                    id.key(),
                    id.as_str(),
                ),
                _ => None,
            },
            None => None,
        }
    }

    fn wake_existing_app(&mut self, key: &str, name: &str, report: &ApplyReport, now: Nanos)
        requires
            old(self).wf(),
            old(self)@.tracks(key@),
        ensures
            final(self).wf(),
            final(self)@ == old(self)@.woken(key@, name@, report@, now),
            final(self)@.tracks(key@),
            final(self)@.app(key@).roots == old(self)@.roots_left(key@, report@),
            final(self)@.app(key@).cgroup == old(self)@.app(key@).cgroup,
    {
        let state = match self.registry.get(key) {
            Some(entry) => entry.state(),
            None => {
                return;
            },
        };
        match state {
            AppState::Active => {},
            AppState::Background => {
                if let Some(entry) = self.registry.get_mut(key) {
                    entry.cancel_suspend_timer();
                    entry.set_state(AppState::Active, now);
                }
                self.clear_failures(key);
            },
            _ => {
                self.activate(key, name, report, now);
                self.clear_failures(key);
            },
        }
    }

    fn attach_window(&mut self, key: &str, window: WindowInfo, table: &ProcessTable) -> (r: Option<
        (String, u32),
    >)
        requires
            old(self).wf(),
            old(self)@.tracks(key@),
        ensures
            final(self).wf(),
            final(self)@ == old(self)@.attached(key@, window, *table),
            r == (match window.pid {
                Some(pid) => if old(self)@.app(key@).cgroup is Some && !pids_of(
                    old(self)@.app(key@).roots,
                ).contains(pid) {
                    Some((old(self)@.app(key@).cgroup->0, pid))
                } else {
                    None
                },
                None => None,
            }),
    {
        let ghost m = self@;
        let ghost w = window;
        let window_id = window.window_id;
        let mut moved: Option<(String, u32)> = None;
        if let Some(entry) = self.registry.get_mut(key) {
            if let Some(pid) = window.pid {
                if !entry.contains_pid(pid) {
                    if let Some(path) = entry.cgroup_path_buf() {
                        moved = Some((path, pid));
                    }
                    let _ = entry.add_pid(pid, table);
                }
            }
            entry.update_window_info(window);
            entry.add_window(window_id);
        }
        proof {
            assert(self@ == m.attached(key@, w, *table));
        }
        moved
    }

    fn activate_existing_app(
        &mut self,
        id: &AppId,
        window: WindowInfo,
        report: &ApplyReport,
        table: &ProcessTable,
        now: Nanos,
    ) -> (r: Option<(String, u32)>)
        requires
            old(self).wf(),
            id@ == window_app(window),
            old(self)@.tracks(ascii_lowercase(id@)),
        ensures
            final(self).wf(),
            final(self)@ == old(self)@.refocused(window, report@, *table, now),
            r == old(self)@.moved_pid(window, report@),
    {
        self.wake_existing_app(id.key(), id.as_str(), report, now);
        self.attach_window(id.key(), window, table)
    }

    fn register_new_app(&mut self, id: AppId, window: WindowInfo, table: &ProcessTable, now: Nanos)
        -> (r: Option<CgroupOrder>)
        requires
            old(self).wf(),
            id@ == window_app(window),
            !old(self)@.tracks(ascii_lowercase(id@)),
        ensures
            final(self).wf(),
            final(self)@ == old(self)@.registered(window, *table, now),
            match r {
                Some(o) => {
                    &&& old(self)@.cgroup_pids(window, *table, now) == Some(o.pids@)
                    &&& o.key@ == ascii_lowercase(window_app(window))
                    &&& o.name@ == window_app(window)
                },
                None => old(self)@.cgroup_pids(window, *table, now) is None,
            },
    {
        let ghost m0 = self@;
        let policy = self.resolve_policy(id.as_str(), &window, table, now);
        let ghost m1 = self@;
        let managed = !matches!(policy.action, Action::Ignore);
        let name = id.as_str().to_owned();
        let key = id.key().to_owned();
        let entry = AppEntry::new(id, window, policy, table, now);
        let ghost e = entry@;
        let pids = entry.pids();
        let _ = self.registry.insert(entry);
        proof {
            assert(e.window_ids =~= seq![window.window_id]);
            assert(self@.reg == RegistryModel {
                apps: m1.reg.apps.insert(key@, e),
                order: m1.reg.order.push(key@),
            });
            assert(self@ == m0.registered(window, *table, now));
        }
        if managed {
            Some(CgroupOrder { key, name, pids })
        } else {
            None
        }
    }

    fn background_other_active_apps(&mut self, focused: &str, now: Nanos)
        requires
            old(self).wf(),
        ensures
            final(self).wf(),
            final(self)@ == old(self)@.others_backgrounded(focused@, now),
    {
        let ghost m0 = self@;
        let manage = self.should_manage();
        let keys = self.registry.keys();
        let ghost order = self@.reg.order;
        let mut i: usize = 0;
        proof {
            self.registry.lemma_sound();
        }
        while i < keys.len()
            invariant
                i <= keys@.len(),
                self.wf(),
                manage == m0.manages(),
                order == m0.reg.order,
                m0.reg.sound(),
                keys@.map_values(|s: String| s@) == order,
                self@ == (EngineModel {
                    reg: RegistryModel { apps: self@.reg.apps, ..m0.reg },
                    ..m0
                }),
                self@.reg.apps.dom() == m0.reg.apps.dom(),
                forall|k: Seq<char>| #[trigger]
                    self@.reg.apps.contains_key(k) ==> self@.reg.apps[k] == (if order.take(
                        i as int,
                    ).contains(k) {
                        m0.backgrounded(focused@, k, m0.reg.apps[k], now)
                    } else {
                        m0.reg.apps[k]
                    }),
            decreases keys@.len() - i,
        {
            let ghost apps = self@.reg.apps;
            let ghost k0 = order[i as int];
            let key = &keys[i];
            proof {
                assert(keys@.map_values(|s: String| s@)[i as int] == key@);
                lemma_take_contains(order, i as int);
                assert(order.contains(k0));
                assert(m0.reg.apps.contains_key(k0));
                assert(apps.contains_key(k0));
            }
            if !same_text(key, focused) {
                if let Some(entry) = self.registry.get_mut(key) {
                    if entry.state() == AppState::Active {
                        if manage && !matches!(entry.policy().action, Action::Ignore) {
                            let delay = entry.policy().suspend_delay;
                            entry.set_suspend_timer(deadline(now, delay));
                        }
                        entry.set_state(AppState::Background, now);
                    }
                }
            }
            proof {
                assert(self@.reg.apps =~= apps.insert(
                    k0,
                    m0.backgrounded(focused@, k0, m0.reg.apps[k0], now),
                ));
                assert(self@.reg.apps.dom() =~= m0.reg.apps.dom());
            }
            i = i + 1;
        }
        proof {
            assert(order.take(order.len() as int) =~= order);
            assert(self@.reg.apps =~= m0.others_backgrounded(focused@, now).reg.apps);
        }
    }

    /// Handles a focus change.
    ///
    /// `report` is what carrying out [`Engine::focus_release`] achieved, and
    /// empty where there was nothing to release. The result says what is to be
    /// done to cgroups.
    pub fn handle_focus_changed(
        &mut self,
        window: WindowInfo,
        report: &ApplyReport,
        table: &ProcessTable,
        now: Nanos,
    ) -> (r: FocusEffects)
        requires
            old(self).wf(),
        ensures
            final(self).wf(),
            final(self)@ == old(self)@.focused(window, report@, *table, now),
            r.move_pid == old(self)@.moved_pid(window, report@),
            match r.create_cgroup {
                Some(o) => {
                    &&& old(self)@.cgroup_pids(window, *table, now) == Some(o.pids@)
                    &&& o.key@ == ascii_lowercase(window_app(window))
                    &&& o.name@ == window_app(window)
                },
                None => old(self)@.cgroup_pids(window, *table, now) is None,
            },
    {
        let ghost m0 = self@;
        self.metrics.focus_changes_total = bump(self.metrics.focus_changes_total, 1);
        let ghost m1 = self@;
        let id = AppId::from_window(&window);
        let key = id.key().to_owned();
        let known = self.registry.get(&key).is_some();
        let effects = if known {
            let move_pid = self.activate_existing_app(&id, window, report, table, now);
            FocusEffects { move_pid, create_cgroup: None }
        } else {
            let create_cgroup = self.register_new_app(id, window, table, now);
            FocusEffects { move_pid: None, create_cgroup }
        };
        self.background_other_active_apps(&key, now);
        effects
    }

    /// Records the cgroup that was made for an application.
    pub fn cgroup_created(&mut self, key: &str, path: String)
        requires
            old(self).wf(),
        ensures
            final(self).wf(),
            final(self)@ == old(self)@.grouped(key@, path),
    {
        let ghost m = self@;
        let ghost p = path;
        if let Some(entry) = self.registry.get_mut(key) {
            entry.set_cgroup_path(path);
        }
        proof {
            assert(self@ == m.grouped(key@, p));
        }
    }

    // --- Releases ahead of use ---

    /// The orders to release the frozen applications whose window is on a
    /// workspace that was switched to.
    ///
    /// Without this, an application that is minimised to the tray there could
    /// not answer.
    pub fn workspace_releases(&self, desktop: u32) -> (r: Vec<ReleaseOrder>)
        requires
            self.wf(),
        ensures
            order_views(r@) == self@.workspace_orders(desktop),
    {
        let mut out: Vec<ReleaseOrder> = Vec::new();
        proof {
            assert(order_views(out@) =~= Seq::empty());
        }
        if !self.should_manage() {
            return out;
        }
        let ghost pick = |a: AppModel|
            a.state is Frozen && a.window.desktop is Some && a.window.desktop->0.shows_on(desktop);
        let ghost order = self@.reg.order;
        let mut i: usize = 0;
        proof {
            self.registry.lemma_sound();
            assert(order.take(0) =~= Seq::empty());
        }
        while i < self.registry.len()
            invariant
                i <= order.len(),
                order == self@.reg.order,
                self.wf(),
                pick == (|a: AppModel|
                    a.state is Frozen && a.window.desktop is Some && a.window.desktop->0.shows_on(
                        desktop,
                    )),
                order_views(out@) == self@.orders_for(order.take(i as int), pick),
            decreases order.len() - i,
        {
            let ghost before = out@;
            let key = self.registry.key_at(i);
            let entry = self.registry.entry_at(i);
            proof {
                assert(order.take(i + 1).drop_last() =~= order.take(i as int));
                assert(order.take(i + 1).last() == key@);
            }
            let visible = match entry.window_info().desktop {
                Some(d) => d.matches(desktop),
                None => false,
            };
            if entry.state() == AppState::Frozen && visible {
                if let Some(o) = self.release_order_for(key, entry.app_id().as_str()) {
                    let ghost v = o@;
                    out.push(o);
                    proof {
                        assert(order_views(out@) =~= order_views(before).push(v));
                    }
                }
            }
            i = i + 1;
        }
        proof {
            assert(order.take(order.len() as int) =~= order);
        }
        out
    }

    /// The order to release the frozen application that has a window which a
    /// panel or launcher asked to activate.
    pub fn activation_release(&self, window_id: u64) -> (r: Option<ReleaseOrder>)
        requires
            self.wf(),
        ensures
            match r {
                Some(o) => self@.activation_orders(window_id).len() > 0 && o@
                    == self@.activation_orders(window_id)[0],
                None => self@.activation_orders(window_id).len() == 0,
            },
    {
        if !self.should_manage() {
            return None;
        }
        let ghost pick = |a: AppModel| a.state is Frozen && a.window_ids.contains(window_id);
        let ghost order = self@.reg.order;
        let mut i: usize = 0;
        proof {
            self.registry.lemma_sound();
            assert(order.take(0) =~= Seq::empty());
        }
        while i < self.registry.len()
            invariant
                i <= order.len(),
                order == self@.reg.order,
                self.wf(),
                self@.manages(),
                pick == (|a: AppModel| a.state is Frozen && a.window_ids.contains(window_id)),
                self@.orders_for(order.take(i as int), pick).len() == 0,
            decreases order.len() - i,
        {
            let key = self.registry.key_at(i);
            let entry = self.registry.entry_at(i);
            proof {
                assert(order.take(i + 1).drop_last() =~= order.take(i as int));
                assert(order.take(i + 1).last() == key@);
            }
            if entry.has_window(window_id) && entry.state() == AppState::Frozen {
                let o = self.release_order_for(key, entry.app_id().as_str());
                proof {
                    lemma_orders_prefix(self@, order, pick, i + 1);
                    assert(order.take(order.len() as int) =~= order);
                }
                return o;
            }
            i = i + 1;
        }
        proof {
            assert(order.take(order.len() as int) =~= order);
        }
        None
    }

    /// Takes the report on a release ahead of use: the application rests in the
    /// background with a fresh suspend timer, as there was no real focus event.
    pub fn finish_pre_thaw(&mut self, order: &ReleaseOrder, report: &ApplyReport, now: Nanos)
        requires
            old(self).wf(),
        ensures
            final(self).wf(),
            final(self)@ == old(self)@.pre_thawed(order@, report@, now),
    {
        let delay = match self.registry.get(&order.key) {
            Some(entry) => Some(entry.policy().suspend_delay),
            None => None,
        };
        self.restore_to_background(&order.key, &order.name, report, now);
        if let Some(d) = delay {
            self.schedule_suspend(&order.key, d, now);
        }
    }

    // --- Closed windows ---

    /// The order to release an application that goes with a window that closed.
    pub fn close_release(&self, window_id: u64) -> (r: Option<ReleaseOrder>)
        requires
            self.wf(),
        ensures
            match r {
                Some(o) => self@.close_order(window_id) == Some(o@),
                None => self@.close_order(window_id) is None,
            },
    {
        proof {
            self.registry.lemma_sound();
            application_leaves_with_its_last_window(self@.reg, window_id);
        }
        match self.registry.closing_key(window_id) {
            Some(key) => match self.registry.get(key) {
                Some(entry) => match entry.state() {
                    AppState::Frozen | AppState::Throttled => Some(
                        ReleaseOrder {
                            key: key.clone(),
                            name: entry.app_id().as_str().to_owned(),
                            state: entry.state(),
                            cgroup_path: entry.cgroup_path_buf(),
                            procs: self.journal.procs_for(key),
                        },
                    ),
                    _ => None,
                },
                None => None,
            },
            None => None,
        }
    }

    /// Handles a closed window.
    ///
    /// `report` is what carrying out [`Engine::close_release`] achieved. Returns
    /// the cgroup that is to be removed.
    pub fn handle_window_closed(&mut self, window_id: u64, report: &ApplyReport, now: Nanos) -> (r:
        Option<String>)
        requires
            old(self).wf(),
        ensures
            final(self).wf(),
            final(self)@ == old(self)@.window_closed(window_id, report@, now),
            r == (match old(self)@.reg.closing(window_id) {
                Some(key) => old(self)@.app(key).cgroup,
                None => None,
            }),
    {
        let ghost m0 = self@;
        proof {
            self.registry.lemma_sound();
            application_leaves_with_its_last_window(m0.reg, window_id);
        }
        let removed = self.registry.remove_window(window_id);
        let ghost m1 = self@;
        proof {
            assert(m1 == EngineModel { reg: m1.reg, ..m0 });
        }
        match removed {
            Some(entry) => {
                let id = entry.app_id();
                let state = entry.state();
                let ms = as_millis(elapsed(entry.state_since(), now));
                let path = entry.cgroup_path_buf();
                self.restore_app_resources(id.key(), id.as_str(), state, report, ms, now);
                self.clear_failures(id.key());
                self.limiter.forget_app(id.as_str());
                path
            },
            None => None,
        }
    }
}

proof fn lemma_orders_prefix(
    m: EngineModel,
    keys: Seq<Seq<char>>,
    pick: spec_fn(AppModel) -> bool,
    n: int,
)
    requires
        0 <= n <= keys.len(),
        m.orders_for(keys.take(n), pick).len() > 0,
    ensures
        m.orders_for(keys, pick).len() > 0,
        m.orders_for(keys, pick)[0] == m.orders_for(keys.take(n), pick)[0],
    decreases keys.len() - n,
{
    if n < keys.len() {
        assert(keys.take(n + 1).drop_last() =~= keys.take(n));
        lemma_orders_prefix(m, keys, pick, n + 1);
    } else {
        assert(keys.take(n) =~= keys);
    }
}

} // verus!
