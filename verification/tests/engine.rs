use std::collections::HashMap;

use app_powerd_core::assoc::Assoc;
use app_powerd_core::config::{
    Action, Config, GuardAction, GuardsConfig, MatchCriteria, PolicyConfig, PowerMode, Rule,
};
use app_powerd_core::desktop::window::{Desktop, WindowInfo};
use app_powerd_core::engine::ipc_handler::{
    freeze_unrecorded, journal_key_for, reload_reply, validate_ipc_pid, IpcStep, ReloadOutcome,
};
use app_powerd_core::engine::model::TimerStep;
use app_powerd_core::engine::rate_limit::{LogKey, RateLimiter, MAX_ENTRIES};
use app_powerd_core::engine::suspend::{SuspendStep, TimerEvent};
use app_powerd_core::engine::transitions::backoff;
use app_powerd_core::engine::{
    Engine, ReleaseOrder, MAX_RETRY_INTERVAL, MAX_SUSPEND_ATTEMPTS, RETRY_INTERVAL,
};
use app_powerd_core::error::SystemError;
use app_powerd_core::guards::audio::AudioActivity;
use app_powerd_core::guards::{check_guards, GuardObservation};
use app_powerd_core::ipc::protocol::{AppInfo, IpcRequest, IpcResponse, Target};
use app_powerd_core::metrics::MetricsSnapshot;
use app_powerd_core::state::journal::{
    FreezeJournal, JournalFile, Pending, RecoveryPlan, RecoveryReport,
};
use app_powerd_core::state::machine::AppState;
use app_powerd_core::system::apply::ApplyReport;
use app_powerd_core::system::cgroup::{CgroupCapabilities, CgroupCapability};
use app_powerd_core::system::freeze::{apply_signal, may_signal, Delivery};
use app_powerd_core::system::power::PowerSource;
use app_powerd_core::system::process::{
    expand_tree, ProcessHandle, ProcessRecord, ProcessTable,
};

const MS: u128 = 1_000_000;
const SECOND: u128 = 1_000_000_000;

fn signal_only() -> CgroupCapabilities {
    CgroupCapabilities {
        tier: CgroupCapability::SignalOnly,
        freezer: false,
        cpu_control: false,
    }
}

fn timing(config: &mut Config, delay_ms: u128, grace_ms: u128, min_ms: u128) {
    config.defaults.timing.suspend_delay = delay_ms * MS;
    config.defaults.timing.resume_grace = grace_ms * MS;
    config.defaults.timing.min_suspend = min_ms * MS;
}

fn test_config() -> Config {
    let mut config = Config::default();
    config.defaults.mode.ac = PowerMode::Enable;
    config.defaults.mode.battery = PowerMode::Enable;
    timing(&mut config, 100, 50, 10);
    config
}

fn reactive_config() -> Config {
    let mut config = test_config();
    config.defaults.reconcile_interval = 50 * MS;
    config.defaults.protection.dbus_check = false;
    timing(&mut config, 80, 10, 10);
    config.defaults.guards = GuardsConfig {
        audio_active: GuardAction::Ignore,
        mic_active: GuardAction::Ignore,
        camera_active: GuardAction::Ignore,
        fullscreen: GuardAction::Ignore,
        input_idle: None,
    };
    config
}

fn no_policy() -> PolicyConfig {
    PolicyConfig {
        use_profile: None,
        action: None,
        suspend_delay: None,
        nice: None,
        cpu_weight: None,
        cpu_quota: None,
        maintenance_resume: None,
        guards: None,
    }
}

fn rule(id: &str, executable: &[&str], wm_class: &[&str], policy: PolicyConfig) -> Rule {
    Rule {
        id: id.to_string(),
        match_criteria: MatchCriteria {
            executable: executable.iter().map(|s| s.to_string()).collect(),
            cmdline_regex: None,
            wm_class: wm_class.iter().map(|s| s.to_string()).collect(),
            app_id: vec![],
            desktop_file: vec![],
            window_title_regex: None,
        },
        policy,
    }
}

fn action_rule(id: &str, wm_class: &str, action: Action) -> Rule {
    rule(
        id,
        &[],
        &[wm_class],
        PolicyConfig {
            action: Some(action),
            ..no_policy()
        },
    )
}

fn make_window(id: u64, pid: u32, wm_class: &str) -> WindowInfo {
    let mut info = WindowInfo::new(id);
    info.pid = Some(pid);
    info.title = Some(format!("Window {id}"));
    info.wm_class = Some(wm_class.to_string());
    info.executable = Some(wm_class.to_lowercase());
    info.cmdline = Some(format!("/usr/bin/{}", wm_class.to_lowercase()));
    info
}

/// A daemon on a machine of which the test owns every process.
struct Daemon {
    engine: Engine,
    procs: ProcessTable,
    stopped: Vec<u32>,
    /// Processes that refuse every signal.
    stubborn: Vec<u32>,
    /// What is on disk.
    file: Option<JournalFile>,
    now: u128,
}

impl Daemon {
    fn start(config: Config) -> Self {
        Self::over(
            Engine::new(config, signal_only(), 1000 * SECOND).expect("engine init"),
        )
    }

    fn with_journal(config: Config) -> Self {
        let journal =
            FreezeJournal::load("/run/test/frozen.json".to_string(), None).expect("no file");
        Self::over(
            Engine::with_journal(config, journal, signal_only(), Assoc::new(), 1000 * SECOND)
                .expect("engine init"),
        )
    }

    fn over(engine: Engine) -> Self {
        Daemon {
            engine,
            procs: ProcessTable::new(),
            stopped: vec![],
            stubborn: vec![],
            file: None,
            now: 1000 * SECOND,
        }
    }

    fn spawn(&mut self, pid: u32) -> u32 {
        self.spawn_with(pid, vec![]);
        pid
    }

    fn spawn_with(&mut self, pid: u32, children: Vec<u32>) {
        self.procs.records.push(ProcessRecord {
            pid,
            starttime: Some(pid as u64 * 10),
            owned: true,
            comm: Some("sleep".to_string()),
            children,
        });
    }

    fn kill(&mut self, pid: u32) {
        self.procs.records.retain(|r| r.pid != pid);
        self.stopped.retain(|p| *p != pid);
    }

    fn is_stopped(&self, pid: u32) -> bool {
        self.stopped.contains(&pid)
    }

    fn persist(&mut self) {
        match self.engine.take_pending() {
            Pending::Nothing => {}
            Pending::Write => self.file = Some(self.engine.journal().file()),
            Pending::Delete => self.file = None,
        }
    }

    fn deliver(&mut self, procs: &[ProcessHandle], stop: bool) -> Vec<Delivery> {
        let mut out = vec![];
        for h in procs {
            if !may_signal(*h, &self.procs) {
                out.push(Delivery::Dead);
            } else if self.stubborn.contains(&h.pid) {
                out.push(Delivery::Refused(SystemError::Nix {
                    code: 1,
                    text: "not permitted".to_string(),
                }));
            } else {
                self.stopped.retain(|p| *p != h.pid);
                if stop {
                    self.stopped.push(h.pid);
                }
                out.push(Delivery::Done);
            }
        }
        out
    }

    fn signal(&mut self, procs: &Vec<ProcessHandle>, stop: bool) -> ApplyReport {
        let outcomes = self.deliver(procs, stop);
        apply_signal(procs, outcomes)
    }

    fn release(&mut self, order: &ReleaseOrder) -> ApplyReport {
        self.signal(&order.procs, false)
    }

    fn focus(&mut self, window: WindowInfo) {
        let report = match self.engine.focus_release(&window) {
            Some(order) => self.release(&order),
            None => ApplyReport::default(),
        };
        self.engine
            .handle_focus_changed(window, &report, &self.procs, self.now);
        self.persist();
    }

    fn close(&mut self, window_id: u64) {
        let report = match self.engine.close_release(window_id) {
            Some(order) => self.release(&order),
            None => ApplyReport::default(),
        };
        self.engine.handle_window_closed(window_id, &report, self.now);
        self.persist();
    }

    fn pre_thaw(&mut self, orders: Vec<ReleaseOrder>) {
        for order in &orders {
            let report = self.release(order);
            self.engine.finish_pre_thaw(order, &report, self.now);
        }
        self.persist();
    }

    fn workspace(&mut self, desktop: u32) {
        let orders = self.engine.workspace_releases(desktop);
        self.pre_thaw(orders);
    }

    fn activation(&mut self, window_id: u64) {
        let orders = self.engine.activation_release(window_id).into_iter().collect();
        self.pre_thaw(orders);
    }

    fn suspend(&mut self, key: &str) {
        if self.engine.handle_suspend_timer(key, self.now) != TimerStep::Expand {
            return;
        }
        let expanded = expand_tree(&self.engine.root_pids(key), &self.procs);
        let procs = self
            .engine
            .exclude_protected(key, &expanded, &self.procs, self.now);
        let Some((guards, fullscreen)) = self.engine.guard_inputs(key) else {
            return;
        };
        let seen = GuardObservation {
            audio: AudioActivity::default(),
            camera: false,
            idle: None,
        };
        let verdict = check_guards(&guards, fullscreen, &seen);
        match self.engine.decide_suspend(key, &procs, verdict, self.now) {
            SuspendStep::Freeze(order) => {
                // What is to be stopped is on disk before it is stopped.
                self.persist();
                let report = self.signal(&order.procs, true);
                self.engine.finish_freeze(&order, &report, self.now);
            }
            SuspendStep::Throttle(order) => {
                let outcomes = order
                    .procs
                    .iter()
                    .map(|h| {
                        if may_signal(*h, &self.procs) {
                            Delivery::Done
                        } else {
                            Delivery::Dead
                        }
                    })
                    .collect();
                let report = apply_signal(&order.procs, outcomes);
                self.engine.finish_throttle(&order, &report, self.now);
            }
            SuspendStep::Skip | SuspendStep::Blocked => {}
        }
        self.persist();
    }

    fn timer(&mut self, event: TimerEvent) {
        match event {
            TimerEvent::Suspend { key } => self.suspend(&key),
            TimerEvent::MaintenanceWake { key } => {
                if let Some(order) = self.engine.maintenance_wake(&key) {
                    let report = self.release(&order);
                    self.engine.finish_maintenance_wake(&order, &report, self.now);
                }
            }
            TimerEvent::MaintenanceSleep { key } => {
                if let Some(order) = self.engine.maintenance_sleep(&key) {
                    let report = self.signal(&order.procs, true);
                    self.engine.finish_maintenance_sleep(&order, &report, self.now);
                }
            }
        }
        self.persist();
    }

    /// Lets time pass, with every timer firing when it is due.
    fn advance(&mut self, ms: u128) {
        let end = self.now + ms * MS;
        while let Some(due) = self.engine.next_deadline() {
            if due > end {
                break;
            }
            self.now = due.max(self.now);
            for event in self.engine.take_due_timers(self.now) {
                self.timer(event);
            }
        }
        self.now = end;
    }

    fn release_all(&mut self, orders: Vec<ReleaseOrder>) {
        let reports = orders.iter().map(|o| self.signal(&o.procs, false)).collect();
        self.engine.finish_thaw_all(&orders, &reports, self.now);
        self.persist();
    }

    fn power(&mut self, source: PowerSource) {
        let orders = self.engine.handle_power_change(source, self.now);
        self.release_all(orders);
    }

    fn reload(&mut self, config: Config) {
        let step = self
            .engine
            .begin_config_reload(config, &self.procs, self.now)
            .expect("configuration is accepted");
        for order in &step.orders {
            let report = self.release(order);
            self.engine.finish_rematch(order, &report, self.now);
        }
        let orders = self.engine.settle_management(step.was_managing, self.now);
        self.release_all(orders);
    }

    fn reconcile(&mut self) {
        let step = self.engine.handle_reconcile(self.now);
        if step.sweep {
            let result = self.engine.sweep_snapshot().sweep(&self.procs);
            self.engine.apply_reconcile_result(&result);
        }
        self.persist();
    }

    fn request(&mut self, request: IpcRequest) -> IpcResponse {
        let step = self.engine.handle_ipc(request, &self.procs, self.now);
        let reply = match step {
            IpcStep::Reply(reply) => reply,
            IpcStep::Release { orders, reply } => {
                self.release_all(orders);
                reply
            }
            IpcStep::Freeze { target, procs } => {
                self.persist();
                let report = self.signal(&procs, true);
                self.engine.finish_ipc_freeze(&target, &procs, &report)
            }
            IpcStep::Thaw { target, procs } => {
                let report = self.signal(&procs, false);
                self.engine.finish_ipc_thaw(&target, &report, self.now)
            }
            IpcStep::ThawAll { recorded } => {
                let outcomes = recorded
                    .iter()
                    .map(|o| self.deliver(&o.procs, false))
                    .collect();
                self.engine.finish_ipc_thaw_all(&recorded, &outcomes, self.now)
            }
            IpcStep::Reload => reload_reply(&ReloadOutcome::Queued),
            IpcStep::Shutdown { reply } => reply,
        };
        self.persist();
        reply
    }

    fn shutdown(&mut self) {
        let orders = self.engine.thaw_all();
        self.release_all(orders);
        let recorded = self.engine.recorded_releases();
        let outcomes = recorded
            .iter()
            .map(|o| self.deliver(&o.procs, false))
            .collect();
        self.engine.finish_release_recorded(&recorded, &outcomes);
        self.engine.shutdown();
        self.persist();
    }

    /// What a fresh daemon does with the journal on disk.
    fn recover(&mut self) -> RecoveryReport {
        let Some(file) = self.file.take() else {
            return RecoveryReport::default();
        };
        let plan = RecoveryPlan::new(&file, &self.procs);
        let outcomes = self.deliver(&plan.resume, false);
        plan.report(&outcomes)
    }

    fn apps(&mut self) -> Vec<AppInfo> {
        match self.request(IpcRequest::List) {
            IpcResponse::AppList { apps } => apps,
            other => panic!("expected AppList, got {other:?}"),
        }
    }

    fn app(&mut self, class: &str) -> AppInfo {
        self.apps()
            .into_iter()
            .find(|a| a.wm_class.as_deref() == Some(class))
            .expect("application is tracked")
    }

    fn stats(&mut self) -> MetricsSnapshot {
        match self.request(IpcRequest::Stats) {
            IpcResponse::Stats { metrics } => metrics,
            other => panic!("expected Stats, got {other:?}"),
        }
    }

    fn status(&mut self) -> StatusSnapshot {
        match self.request(IpcRequest::Status) {
            IpcResponse::Status {
                enabled,
                power_source,
                forced_power_source,
                tracked_apps,
                cgroup_mode,
                protected_apps,
                ..
            } => StatusSnapshot {
                enabled,
                power_source,
                forced_power_source,
                tracked_apps,
                cgroup_mode,
                protected_apps,
            },
            other => panic!("expected Status, got {other:?}"),
        }
    }

    fn force(&mut self, source: Option<PowerSource>) -> IpcResponse {
        self.request(IpcRequest::SetPowerOverride { source })
    }
}

struct StatusSnapshot {
    enabled: bool,
    power_source: PowerSource,
    forced_power_source: Option<PowerSource>,
    tracked_apps: usize,
    cgroup_mode: String,
    protected_apps: usize,
}

// --- Rate limiter ---

#[test]
fn first_message_passes_and_repeat_is_suppressed() {
    let mut limiter = RateLimiter::new(60 * SECOND);
    let key = LogKey::pid("Firefox", 1, "sigstop");
    assert!(limiter.allow(key.copy(), 0));
    assert!(!limiter.allow(key, 0));
}

#[test]
fn different_keys_do_not_suppress_each_other() {
    let mut limiter = RateLimiter::new(60 * SECOND);
    assert!(limiter.allow(LogKey::pid("Firefox", 1, "sigstop"), 0));
    assert!(limiter.allow(LogKey::pid("Firefox", 2, "sigstop"), 0));
    assert!(limiter.allow(LogKey::pid("Firefox", 1, "throttle"), 0));
    assert!(limiter.allow(LogKey::app("Chrome", "sigstop"), 0));
}

#[test]
fn expired_entries_are_dropped_and_message_passes_again() {
    let mut limiter = RateLimiter::new(MS);
    let key = LogKey::app("Firefox", "sigstop");
    assert!(limiter.allow(key.copy(), 0));
    assert!(limiter.allow(key, 5 * MS));
    assert_eq!(limiter.len(), 1);
}

#[test]
fn entries_are_capped() {
    let mut limiter = RateLimiter::new(3600 * SECOND);
    for pid in 0..(MAX_ENTRIES as u32 + 500) {
        limiter.allow(LogKey::pid("App", pid, "sigstop"), 0);
    }
    assert!(limiter.len() <= MAX_ENTRIES + 1);
}

#[test]
fn forget_app_clears_only_that_app() {
    let mut limiter = RateLimiter::new(60 * SECOND);
    limiter.allow(LogKey::app("Firefox", "protected"), 0);
    limiter.allow(LogKey::app("Chrome", "protected"), 0);
    limiter.forget_app("Firefox");
    assert!(limiter.allow(LogKey::app("Firefox", "protected"), 0));
    assert!(!limiter.allow(LogKey::app("Chrome", "protected"), 0));
}

// --- Manual targets ---

#[test]
fn validate_ipc_pid_zero() {
    assert!(validate_ipc_pid(0, &ProcessTable::new()).is_err());
}

#[test]
fn validate_ipc_pid_self() {
    let procs = ProcessTable {
        records: vec![ProcessRecord {
            pid: 500,
            starttime: Some(1),
            owned: true,
            comm: None,
            children: vec![],
        }],
    };
    assert!(validate_ipc_pid(500, &procs).is_ok());
}

#[test]
fn validate_ipc_pid_nonexistent() {
    let refusal = validate_ipc_pid(u32::MAX, &ProcessTable::new());
    assert!(refusal.is_err());
    assert_eq!(refusal.unwrap_err(), "no process with pid 4294967295");
}

#[test]
fn foreign_processes_are_no_targets() {
    let procs = ProcessTable {
        records: vec![ProcessRecord {
            pid: 1,
            starttime: Some(1),
            owned: false,
            comm: None,
            children: vec![],
        }],
    };
    assert_eq!(
        validate_ipc_pid(1, &procs).unwrap_err(),
        "pid 1 is not owned by current user"
    );
}

#[test]
fn journal_keys_of_manual_targets() {
    assert_eq!(journal_key_for(&Target::pid(42)), "ipc:pid:42");
    assert_eq!(
        journal_key_for(&Target::app("Firefox".to_string())),
        "firefox"
    );
}

#[test]
fn replies_to_reload_and_unrecorded_freezes() {
    let text = |r: IpcResponse| match r {
        IpcResponse::Error { message } => message,
        other => panic!("expected Error, got {other:?}"),
    };
    assert!(matches!(
        reload_reply(&ReloadOutcome::Queued),
        IpcResponse::Done { message } if message == "config reload triggered"
    ));
    assert_eq!(
        text(reload_reply(&ReloadOutcome::NotQueued("full".to_string()))),
        "failed to queue config reload: full"
    );
    assert_eq!(
        text(reload_reply(&ReloadOutcome::Failed("bad".to_string()))),
        "config reload failed: bad"
    );
    assert_eq!(
        text(freeze_unrecorded(&Target::pid(7), "disk full")),
        "refusing to freeze pid 7: cannot record it in the freeze journal (disk full); suspended \
         processes that are not recorded cannot be recovered"
    );
}

// --- The daemon ---

#[test]
fn focus_changed_sets_active_and_background() {
    let mut d = Daemon::start(test_config());
    let firefox = d.spawn(10);
    let chrome = d.spawn(20);

    d.focus(make_window(1, firefox, "Firefox"));
    let apps = d.apps();
    assert_eq!(apps.len(), 1);
    assert_eq!(apps[0].state, AppState::Active);
    assert_eq!(apps[0].wm_class, Some("Firefox".to_string()));

    // Focus on window 2 — should background window 1
    d.focus(make_window(2, chrome, "Chrome"));
    assert_eq!(d.apps().len(), 2);
    assert_eq!(d.app("Firefox").state, AppState::Background);
    assert_eq!(d.app("Chrome").state, AppState::Active);
}

#[test]
fn ipc_status_roundtrip() {
    let mut d = Daemon::start(test_config());
    let status = d.status();
    assert!(status.enabled);
    assert_eq!(status.tracked_apps, 0);
}

#[test]
fn config_reload_flow() {
    let mut d = Daemon::start(test_config());
    assert!(matches!(
        d.request(IpcRequest::ReloadConfig),
        IpcResponse::Done { .. }
    ));
    let mut config = Config::default();
    config.rules.push(rule(
        "test-rule",
        &["test-app"],
        &[],
        PolicyConfig {
            action: Some(Action::Throttle),
            ..no_policy()
        },
    ));
    d.reload(config);
    assert!(d.stats().config_reloads_total >= 1);
}

#[test]
fn guards_block_suspend() {
    let mut d = Daemon::start(test_config());
    let player = d.spawn(10);
    let editor = d.spawn(20);

    // Create a fullscreen window
    let mut window = make_window(1, player, "Player");
    window.is_fullscreen = true;
    d.focus(window);

    // Focus another window to background the fullscreen one
    d.focus(make_window(2, editor, "Editor"));

    // Wait longer than suspend_delay (100ms in test config)
    d.advance(200);
    assert_eq!(
        d.app("Player").state,
        AppState::Background,
        "fullscreen guard should block freeze"
    );
    assert!(
        d.stats().guard_blocks_total >= 1,
        "guard should have blocked at least once"
    );
    assert!(!d.is_stopped(player));
}

#[test]
fn window_closed_cleanup() {
    let mut d = Daemon::start(test_config());
    let app1 = d.spawn(10);
    let app2 = d.spawn(20);
    d.focus(make_window(1, app1, "App1"));
    d.focus(make_window(2, app2, "App2"));
    assert_eq!(d.apps().len(), 2);

    d.close(1);
    let apps = d.apps();
    assert_eq!(apps.len(), 1);
    assert_eq!(apps[0].wm_class, Some("App2".to_string()));
}

#[test]
fn closing_a_frozen_application_resumes_it() {
    let mut d = Daemon::with_journal(reactive_config());
    let target = d.spawn(10);
    let other = d.spawn(20);
    d.focus(make_window(1, target, "Target"));
    d.focus(make_window(2, other, "Other"));
    d.advance(200);
    assert!(d.is_stopped(target));
    d.close(1);
    assert!(!d.is_stopped(target));
    assert_eq!(d.apps().len(), 1);
    assert!(d.engine.journal().is_empty());
}

fn battery_only(config: &mut Config) {
    config.defaults.mode.ac = PowerMode::Disable;
    config.defaults.mode.battery = PowerMode::Enable;
}

#[test]
fn power_source_toggle() {
    let mut config = test_config();
    battery_only(&mut config);
    let mut d = Daemon::start(config);

    // Start on Battery — management should be enabled
    d.power(PowerSource::Battery);
    assert!(d.status().enabled, "should be enabled on battery");

    // Switch to AC — management should be disabled
    d.power(PowerSource::Ac);
    assert!(!d.status().enabled, "should be disabled on AC");

    // Switch back to Battery — management should be re-enabled
    d.power(PowerSource::Battery);
    assert!(d.status().enabled, "should be re-enabled on battery");
}

#[test]
fn power_source_override_flow() {
    let mut config = test_config();
    battery_only(&mut config);
    let mut d = Daemon::start(config);

    d.power(PowerSource::Ac);
    let status = d.status();
    assert!(!status.enabled, "should be disabled on AC");
    assert_eq!(status.power_source, PowerSource::Ac);
    assert_eq!(status.forced_power_source, None);

    // Force battery → management enabled, override visible
    let resp = d.force(Some(PowerSource::Battery));
    assert!(matches!(resp, IpcResponse::Done { .. }));

    let status = d.status();
    assert!(status.enabled, "should be enabled when forced to battery");
    assert_eq!(status.power_source, PowerSource::Ac, "detected unchanged");
    assert_eq!(status.forced_power_source, Some(PowerSource::Battery));

    // Detection change while forced: no effect on management
    d.power(PowerSource::Battery);
    let status = d.status();
    assert!(status.enabled);
    assert_eq!(status.power_source, PowerSource::Battery);
    assert_eq!(status.forced_power_source, Some(PowerSource::Battery));

    // Detected flips back to AC; still forced to battery → still managing
    d.power(PowerSource::Ac);
    assert!(d.status().enabled, "still managing while forced");

    // Edge case: re-applying the same override is idempotent
    let resp = d.force(Some(PowerSource::Battery));
    assert!(matches!(resp, IpcResponse::Done { .. }));
    assert_eq!(d.status().forced_power_source, Some(PowerSource::Battery));

    // Edge case: forcing source equal to detected source still tracks override
    let resp = d.force(Some(PowerSource::Ac));
    assert!(matches!(resp, IpcResponse::Done { .. }));
    let status = d.status();
    assert!(!status.enabled, "forced AC behaves like detected AC");
    assert_eq!(status.forced_power_source, Some(PowerSource::Ac));

    // Edge case: forcing Unknown is rejected
    let resp = d.force(Some(PowerSource::Unknown));
    assert!(
        matches!(resp, IpcResponse::Error { .. }),
        "forcing Unknown should be rejected, got {resp:?}"
    );
    assert_eq!(
        d.status().forced_power_source,
        Some(PowerSource::Ac),
        "rejected request must not mutate state"
    );

    // Clear override → effective source = detected (AC) → disabled
    let resp = d.force(None);
    assert!(matches!(
        resp,
        IpcResponse::Done { message } if message == "power source override set to auto"
    ));
    let status = d.status();
    assert!(
        !status.enabled,
        "follows detected AC after clearing override"
    );
    assert_eq!(status.forced_power_source, None);
}

#[test]
fn ipc_freeze_thaw() {
    let mut d = Daemon::start(test_config());
    let response = d.request(IpcRequest::Freeze {
        target: Target::pid(0),
    });
    assert!(
        matches!(response, IpcResponse::Error { .. }),
        "freeze pid=0 should error"
    );
    let response = d.request(IpcRequest::Thaw {
        target: Target::pid(0),
    });
    assert!(
        matches!(response, IpcResponse::Error { .. }),
        "thaw pid=0 should error"
    );
}

#[test]
fn pre_thaw_events_dispatch_cleanly() {
    let mut d = Daemon::start(test_config());
    let tray = d.spawn(10);
    let sticky = d.spawn(20);

    // Track an app on desktop 3.
    let mut window = make_window(1, tray, "Tray");
    window.desktop = Some(Desktop::Index(3));
    d.focus(window);

    // Track a second app with desktop = None.
    d.focus(make_window(2, sticky, "Sticky"));
    let sticky_before = d.app("Sticky").state;

    // Non-matching desktop — no-op.
    d.workspace(99);
    // Matching desktop — no-op too, because the app is Active, not Frozen.
    d.workspace(3);
    // Activation for unknown window — no-op.
    d.activation(999);

    assert_eq!(
        d.app("Sticky").state, sticky_before,
        "WorkspaceChanged must not touch apps with desktop=None"
    );
}

#[test]
fn workspace_change_pre_thaws_frozen_app() {
    let mut d = Daemon::start(test_config());
    let tray = d.spawn(10);
    let other = d.spawn(20);

    // Track an app on desktop 7.
    let mut window = make_window(1, tray, "Tray");
    window.desktop = Some(Desktop::Index(7));
    d.focus(window);
    d.focus(make_window(2, other, "Other"));

    d.advance(250);
    assert_eq!(
        d.app("Tray").state,
        AppState::Frozen,
        "expected Tray to be Frozen after suspend_delay"
    );
    assert!(d.is_stopped(tray));

    // Non-matching desktop — must stay Frozen.
    d.workspace(999);
    assert_eq!(
        d.app("Tray").state,
        AppState::Frozen,
        "non-matching desktop must not pre-thaw"
    );

    // Matching desktop — must transition out of Frozen into Background.
    d.workspace(7);
    assert_eq!(
        d.app("Tray").state,
        AppState::Background,
        "matching desktop must pre-thaw Frozen → Background"
    );
    assert!(!d.is_stopped(tray));

    // A fresh suspend timer runs.
    d.advance(250);
    assert_eq!(d.app("Tray").state, AppState::Frozen);
}

#[test]
fn workspace_change_pre_thaws_sticky_frozen_app() {
    let mut d = Daemon::start(test_config());
    let tray = d.spawn(10);
    let other = d.spawn(20);

    // Sticky tray (visible on every workspace).
    let mut window = make_window(1, tray, "StickyTray");
    window.desktop = Some(Desktop::All);
    d.focus(window);
    d.focus(make_window(2, other, "Other"));
    d.advance(250);
    assert_eq!(d.app("StickyTray").state, AppState::Frozen);

    // Any workspace switch should pre-thaw a sticky app.
    d.workspace(42);
    assert_eq!(
        d.app("StickyTray").state,
        AppState::Background,
        "Desktop::All must pre-thaw on any workspace switch"
    );
}

#[test]
fn activation_request_pre_thaws_the_owner_of_the_window() {
    let mut d = Daemon::start(test_config());
    let tray = d.spawn(10);
    let other = d.spawn(20);
    d.focus(make_window(1, tray, "Tray"));
    d.focus(make_window(2, other, "Other"));
    d.advance(250);
    assert_eq!(d.app("Tray").state, AppState::Frozen);
    d.activation(2);
    assert_eq!(d.app("Tray").state, AppState::Frozen);
    d.activation(1);
    assert_eq!(d.app("Tray").state, AppState::Background);
    assert!(!d.is_stopped(tray));
}

#[test]
fn config_reload_rematches() {
    let mut d = Daemon::start(test_config());
    let myapp = d.spawn(10);
    let other = d.spawn(20);
    d.focus(make_window(1, myapp, "MyApp"));
    d.focus(make_window(2, other, "Other"));

    let mut config = test_config();
    config
        .rules
        .push(action_rule("ignore-myapp", "MyApp", Action::Ignore));
    d.reload(config);

    // Wait longer than suspend_delay to verify MyApp doesn't get frozen
    d.advance(250);
    assert_eq!(
        d.app("MyApp").state,
        AppState::Background,
        "MyApp should stay Background with ignore policy (not frozen)"
    );
    assert_eq!(d.app("MyApp").rule_id.as_deref(), Some("ignore-myapp"));
}

#[test]
fn reload_releases_what_the_new_policy_no_longer_freezes() {
    let mut d = Daemon::with_journal(reactive_config());
    let target = d.spawn(10);
    let other = d.spawn(20);
    d.focus(make_window(1, target, "Target"));
    d.focus(make_window(2, other, "Other"));
    d.advance(200);
    assert!(d.is_stopped(target));

    let mut config = reactive_config();
    config
        .rules
        .push(action_rule("throttle", "Target", Action::Throttle));
    d.reload(config);
    assert!(!d.is_stopped(target));
    assert_eq!(d.app("Target").state, AppState::Background);
    // It is suspended again, the new way.
    d.advance(200);
    assert_eq!(d.app("Target").state, AppState::Throttled);
    assert!(!d.is_stopped(target));
    // Focus lifts the throttle.
    d.focus(make_window(1, target, "Target"));
    assert_eq!(d.app("Target").state, AppState::Active);
    assert_eq!(d.stats().apps_unthrottled_total, 1);
}

#[test]
fn an_application_with_two_windows_leaves_with_the_second() {
    let mut d = Daemon::start(reactive_config());
    let target = d.spawn(10);
    let other = d.spawn(20);
    d.focus(make_window(1, target, "Target"));
    d.focus(make_window(2, target, "Target"));
    d.focus(make_window(3, other, "Other"));
    d.advance(200);
    assert!(d.is_stopped(target));

    d.close(1);
    assert!(d.is_stopped(target));
    assert_eq!(d.app("Target").state, AppState::Frozen);
    d.close(2);
    assert!(!d.is_stopped(target));
    assert!(d.apps().iter().all(|a| a.wm_class.as_deref() != Some("Target")));
    assert_eq!(d.apps().len(), 1);
}

#[test]
fn the_engine_keeps_the_path_of_its_journal() {
    let mut d = Daemon::with_journal(reactive_config());
    assert_eq!(d.engine.journal().path(), "/run/test/frozen.json");
    let target = d.spawn(10);
    let other = d.spawn(20);
    d.focus(make_window(1, target, "Target"));
    d.focus(make_window(2, other, "Other"));
    d.advance(200);
    assert!(d.is_stopped(target));
    assert_eq!(d.engine.journal().path(), "/run/test/frozen.json");
    assert_eq!(Daemon::start(reactive_config()).engine.journal().path(), "");
}

#[test]
fn throttling_follows_the_policy() {
    let mut config = reactive_config();
    config.rules.push(rule(
        "throttle",
        &["test-app"],
        &[],
        PolicyConfig {
            action: Some(Action::Throttle),
            nice: Some(12),
            cpu_weight: Some(30),
            cpu_quota: Some("40%".to_string()),
            ..no_policy()
        },
    ));
    let mut d = Daemon::start(config);
    let target = d.spawn(10);
    let mut window = make_window(1, target, "Target");
    window.executable = Some("test-app".to_string());
    d.focus(window);

    let params = d.engine.throttle_params("target").expect("tracked");
    assert_eq!(params.nice, Some(12));
    assert_eq!(params.cpu_weight, Some(30));
    assert_eq!(params.cpu_quota.as_deref(), Some("40%"));
    assert!(d.engine.throttle_params("nobody").is_none());
}

#[test]
fn dead_processes_retire_the_application() {
    let mut d = Daemon::start(reactive_config());
    let doomed = d.spawn(10);
    let survivor = d.spawn(20);
    d.focus(make_window(1, doomed, "Doomed"));
    d.focus(make_window(2, survivor, "Survivor"));
    assert_eq!(d.apps().len(), 2);

    // Kill the process without telling the engine its window closed.
    d.kill(doomed);
    d.reconcile();
    let apps = d.apps();
    assert_eq!(
        apps.len(),
        1,
        "the dead application must be dropped, got {apps:?}"
    );
    assert_eq!(apps[0].app_id, "Survivor", "the live one must be kept");
    assert_eq!(d.stats().apps_removed_stale_total, 1);
}

#[test]
fn live_processes_survive_reconciliation() {
    let mut d = Daemon::start(reactive_config());
    let alive = d.spawn(10);
    d.focus(make_window(1, alive, "Alive"));
    for _ in 0..3 {
        d.reconcile();
        d.advance(20);
    }
    let apps = d.apps();
    assert_eq!(apps.len(), 1, "a live application must not be reaped");
    assert_eq!(apps[0].pids, vec![alive]);
}

#[test]
fn protected_app_is_never_suspended_even_when_a_rule_demands_it() {
    let mut config = reactive_config();
    config.rules.push(rule(
        "force-freeze-zenity",
        &["zenity"],
        &[],
        PolicyConfig {
            action: Some(Action::Freeze),
            suspend_delay: Some(20 * MS),
            ..no_policy()
        },
    ));
    let mut d = Daemon::start(config);
    let dialog = d.spawn(10);
    let other = d.spawn(20);

    // A window that identifies as zenity, matching the user's explicit rule.
    let mut window = make_window(1, dialog, "Zenity");
    window.executable = Some("zenity".to_string());
    d.focus(window);

    // Background it and wait well past the 20ms suspend delay.
    d.focus(make_window(2, other, "Other"));
    d.advance(150);

    let dialog_info = d.app("Zenity");
    assert_ne!(
        dialog_info.state,
        AppState::Frozen,
        "a protected app must never reach Frozen"
    );
    assert!(
        dialog_info.protected.is_some(),
        "the reason for the exemption must be reportable, got {dialog_info:?}"
    );
    assert_eq!(
        dialog_info.protected.as_deref(),
        Some("built-in protection: built-in deny-list (zenity)")
    );
    assert!(
        !d.is_stopped(dialog),
        "the dialog process must still be running"
    );
    assert!(d.status().protected_apps >= 1, "status must surface the count");
}

#[test]
fn app_identity_is_case_insensitive() {
    let mut d = Daemon::start(reactive_config());
    let proc = d.spawn(10);
    d.focus(make_window(1, proc, "MyApp"));
    d.focus(make_window(2, proc, "myapp"));
    let apps = d.apps();
    assert_eq!(
        apps.len(),
        1,
        "differing case must not create a second entry, got {apps:?}"
    );
}

#[test]
fn shutdown_releases_every_frozen_process() {
    let mut d = Daemon::with_journal(reactive_config());
    let target = d.spawn(10);
    let other = d.spawn(20);
    d.focus(make_window(1, target, "Target"));
    d.focus(make_window(2, other, "Other"));
    d.advance(200);
    assert!(d.is_stopped(target));
    assert!(d.file.is_some(), "freezing must be recorded on disk");

    d.shutdown();
    assert!(
        !d.is_stopped(target),
        "shutdown must resume every frozen process"
    );
    assert!(d.file.is_none(), "a clean shutdown must clear the journal");
    assert!(d.engine.next_deadline().is_none());
}

#[test]
fn journal_records_frozen_processes_and_recovery_releases_them() {
    let mut d = Daemon::with_journal(reactive_config());
    let target = d.spawn(10);
    let other = d.spawn(20);
    d.focus(make_window(1, target, "Target"));
    d.focus(make_window(2, other, "Other"));
    d.advance(200);
    assert!(d.is_stopped(target), "process is still stopped");

    // A fresh daemon replays the journal on startup.
    let report = d.recover();
    assert!(
        report.thawed >= 1,
        "recovery must resume it, got {report:?}"
    );
    assert!(
        !d.is_stopped(target),
        "recovery must leave nothing stopped"
    );
    assert!(d.file.is_none(), "recovery clears the journal");
}

#[test]
fn manual_ipc_freeze_is_recorded_in_the_journal() {
    let mut d = Daemon::with_journal(reactive_config());
    let target = d.spawn(10);
    let response = d.request(IpcRequest::Freeze {
        target: Target::pid(target),
    });
    assert!(
        matches!(response, IpcResponse::Done { message } if message == "froze 1 process(es) for pid 10"),
        "manual freeze should succeed for an ordinary owned process"
    );
    assert!(d.is_stopped(target), "process is still stopped");

    let report = d.recover();
    assert!(
        report.thawed >= 1,
        "recovery must resume a manually frozen process, got {report:?}"
    );
    assert!(
        !d.is_stopped(target),
        "a manually frozen process must not be stranded"
    );
}

#[test]
fn manual_freeze_and_thaw_leave_no_record() {
    let mut d = Daemon::with_journal(reactive_config());
    let target = d.spawn(10);
    d.request(IpcRequest::Freeze {
        target: Target::pid(target),
    });
    assert_eq!(d.engine.journal().procs_for("ipc:pid:10").len(), 1);
    let response = d.request(IpcRequest::Thaw {
        target: Target::pid(target),
    });
    assert!(matches!(
        response,
        IpcResponse::Done { message } if message == "thawed 1 process(es) for pid 10"
    ));
    assert!(!d.is_stopped(target));
    assert!(d.engine.journal().is_empty());
}

#[test]
fn manual_commands_take_applications_by_name() {
    let mut d = Daemon::with_journal(reactive_config());
    let target = d.spawn(10);
    d.focus(make_window(1, target, "Target"));
    let response = d.request(IpcRequest::Freeze {
        target: Target::app("TARGET".to_string()),
    });
    assert!(matches!(
        response,
        IpcResponse::Done { message } if message == "froze 1 process(es) for app TARGET"
    ));
    d.request(IpcRequest::Thaw {
        target: Target::app("target".to_string()),
    });
    assert!(!d.is_stopped(target));
    assert_eq!(d.app("Target").state, AppState::Background);
    let response = d.request(IpcRequest::Freeze {
        target: Target::app("nobody".to_string()),
    });
    assert!(matches!(
        response,
        IpcResponse::Error { message } if message == "no tracked application named 'nobody'"
    ));
}

#[test]
fn protected_processes_cannot_be_frozen_by_hand() {
    let mut d = Daemon::with_journal(reactive_config());
    d.procs.records.push(ProcessRecord {
        pid: 30,
        starttime: Some(3),
        owned: true,
        comm: Some("xdg-desktop-portal".to_string()),
        children: vec![],
    });
    let response = d.request(IpcRequest::Freeze {
        target: Target::pid(30),
    });
    assert!(matches!(
        response,
        IpcResponse::Error { message } if message.starts_with("refusing to freeze pid 30: ")
    ));
    assert!(!d.is_stopped(30));
    assert!(d.engine.journal().is_empty());
    assert_eq!(d.stats().protection_blocks_total, 1);
}

#[test]
fn a_freeze_that_reaches_nothing_fails() {
    let mut d = Daemon::with_journal(reactive_config());
    let target = d.spawn(10);
    d.stubborn.push(target);
    let response = d.request(IpcRequest::Freeze {
        target: Target::pid(target),
    });
    assert!(matches!(
        response,
        IpcResponse::Error { message }
            if message == "freeze failed for pid 10: no process could be suspended"
    ));
    assert!(d.engine.journal().is_empty());
    let response = d.request(IpcRequest::Thaw {
        target: Target::pid(target),
    });
    assert!(matches!(
        response,
        IpcResponse::Error { message }
            if message == "thaw failed for pid 10: no process could be resumed"
    ));
}

#[test]
fn an_app_owning_a_bus_name_is_still_managed() {
    let mut d = Daemon::with_journal(reactive_config());
    let target = d.spawn(10);
    let other = d.spawn(20);

    // The application itself owns a well-known name, exactly like a browser
    // exposing MPRIS.
    d.engine.protection_refreshed(HashMap::from([(
        target,
        "org.mpris.MediaPlayer2.chromium.instance1".to_string(),
    )]));
    d.focus(make_window(1, target, "Chromium"));
    d.focus(make_window(2, other, "Other"));
    d.advance(200);
    assert!(
        d.is_stopped(target),
        "an app owning a bus name to still be frozen"
    );
    let info = d.app("Chromium");
    assert!(
        info.protected.is_none(),
        "owning a bus name must not mark the application protected, got {:?}",
        info.protected
    );
}

#[test]
fn helpers_that_own_a_bus_name_are_spared() {
    let mut d = Daemon::with_journal(reactive_config());
    d.spawn_with(10, vec![11, 12]);
    d.spawn(11);
    d.spawn(12);
    let other = d.spawn(20);
    d.engine
        .protection_refreshed(HashMap::from([(12, "org.example.Helper".to_string())]));
    d.focus(make_window(1, 10, "Target"));
    d.focus(make_window(2, other, "Other"));
    d.advance(200);
    assert!(d.is_stopped(10) && d.is_stopped(11));
    assert!(!d.is_stopped(12));
    // The whole tree comes back, though only the root owns a window.
    d.focus(make_window(1, 10, "Target"));
    assert!(d.stopped.iter().all(|p| *p == other));
    assert!(d.engine.journal().procs_for("target").is_empty());
}

#[test]
fn backgrounding_is_recorded_even_when_management_is_off() {
    let mut config = Config::default();
    config.defaults.reconcile_interval = 50 * MS;
    config.defaults.protection.dbus_check = false;
    battery_only(&mut config);
    timing(&mut config, 50, 10, 10);
    let mut d = Daemon::start(config);

    // On AC with `ac: disable`, nothing is managed.
    d.power(PowerSource::Ac);
    let first = d.spawn(10);
    let second = d.spawn(20);
    d.focus(make_window(1, first, "First"));
    d.advance(20);
    d.focus(make_window(2, second, "Second"));
    d.advance(20);

    assert_eq!(
        d.app("First").state,
        AppState::Background,
        "an unfocused app must be recorded as Background even with management off"
    );
    // And it must not be suspended: management is off.
    assert!(!d.is_stopped(first));
    assert_eq!(d.app("Second").state, AppState::Active);
    d.advance(1000);
    assert!(!d.is_stopped(first));
}

#[test]
fn switching_to_ac_resumes_frozen_apps() {
    let mut config = reactive_config();
    battery_only(&mut config);
    timing(&mut config, 50, 10, 10);
    let mut d = Daemon::with_journal(config);
    d.power(PowerSource::Battery);
    let target = d.spawn(10);
    let other = d.spawn(20);
    d.focus(make_window(1, target, "Target"));
    d.focus(make_window(2, other, "Other"));
    d.advance(200);
    assert!(d.is_stopped(target));

    d.power(PowerSource::Ac);
    assert!(!d.is_stopped(target));
    assert_ne!(
        d.app("Target").state,
        AppState::Frozen,
        "state must reflect that the app was resumed"
    );
}

#[test]
fn switching_to_battery_starts_the_timers() {
    let mut config = reactive_config();
    battery_only(&mut config);
    let mut d = Daemon::start(config);
    d.power(PowerSource::Ac);
    let target = d.spawn(10);
    let other = d.spawn(20);
    d.focus(make_window(1, target, "Target"));
    d.focus(make_window(2, other, "Other"));
    d.advance(500);
    assert!(!d.is_stopped(target));
    d.power(PowerSource::Battery);
    d.advance(200);
    assert!(d.is_stopped(target));
}

#[test]
fn status_reports_the_suspension_mode() {
    let mut d = Daemon::start(reactive_config());
    let status = d.status();
    assert!(
        ["SignalOnly", "DirectWrite", "SystemdTransient"].contains(&status.cgroup_mode.as_str()),
        "unexpected mode: {}",
        status.cgroup_mode
    );
}

#[test]
fn thaw_all_releases_processes_of_retired_apps() {
    let mut d = Daemon::with_journal(reactive_config());
    let target = d.spawn(10);
    let other = d.spawn(20);
    d.focus(make_window(1, target, "Target"));
    d.focus(make_window(2, other, "Other"));
    d.advance(200);
    assert!(d.is_stopped(target));

    assert!(matches!(
        d.request(IpcRequest::ThawAll),
        IpcResponse::Done { message } if message == "released 1 process(es)"
    ));
    assert!(!d.is_stopped(target), "thaw-all must resume everything");
    assert_eq!(d.app("Target").state, AppState::Background);
    assert!(d.file.is_none());
}

#[test]
fn thaw_all_keeps_what_could_not_be_resumed() {
    let mut d = Daemon::with_journal(reactive_config());
    d.spawn_with(10, vec![11]);
    d.spawn(11);
    let other = d.spawn(20);
    d.focus(make_window(1, 10, "Target"));
    d.focus(make_window(2, other, "Other"));
    d.advance(200);
    assert!(d.is_stopped(10) && d.is_stopped(11));
    d.stubborn.push(11);
    assert!(matches!(
        d.request(IpcRequest::ThawAll),
        IpcResponse::Error { message }
            if message == "released 1 process(es), but 1 could not be resumed and remain recorded \
                           in the journal"
    ));
    assert!(!d.is_stopped(10));
    let left = d.engine.journal().procs_for("target");
    assert_eq!(left.len(), 1);
    assert_eq!(left[0].pid, 11);
    assert!(d.file.is_some());
}

#[test]
fn failing_suspends_back_off_and_are_given_up() {
    let mut d = Daemon::start(reactive_config());
    let target = d.spawn(10);
    let other = d.spawn(20);
    d.stubborn.push(target);
    d.focus(make_window(1, target, "Target"));
    d.focus(make_window(2, other, "Other"));
    d.advance(80);
    // The first retry comes after the base interval.
    assert_eq!(d.engine.next_deadline(), Some(d.now + RETRY_INTERVAL));
    d.advance(3_600_000);
    assert_eq!(d.app("Target").state, AppState::Background);
    assert_eq!(d.engine.next_deadline(), None);
}

#[test]
fn the_backoff_doubles_up_to_a_limit() {
    assert_eq!(backoff(1), RETRY_INTERVAL);
    assert_eq!(backoff(2), 2 * RETRY_INTERVAL);
    assert_eq!(backoff(3), 4 * RETRY_INTERVAL);
    assert_eq!(backoff(6), MAX_RETRY_INTERVAL);
    assert_eq!(backoff(u32::MAX), MAX_RETRY_INTERVAL);
    assert_eq!(MAX_SUSPEND_ATTEMPTS, 5);
}

#[test]
fn maintenance_wakes_a_frozen_application_for_a_while() {
    let mut config = reactive_config();
    config.defaults.maintenance_resume.enabled = true;
    config.defaults.maintenance_resume.interval = 1000 * MS;
    config.defaults.maintenance_resume.duration = 100 * MS;
    let mut d = Daemon::with_journal(config);
    let target = d.spawn(10);
    let other = d.spawn(20);
    d.focus(make_window(1, target, "Target"));
    d.focus(make_window(2, other, "Other"));
    d.advance(80);
    assert!(d.is_stopped(target));
    d.advance(1050);
    assert!(!d.is_stopped(target));
    assert_eq!(d.app("Target").state, AppState::Frozen);
    assert_eq!(d.engine.journal().procs_for("target").len(), 1);
    d.advance(100);
    assert!(d.is_stopped(target));
}

#[test]
fn reaping_keeps_the_record_of_stopped_helpers() {
    let mut d = Daemon::with_journal(reactive_config());
    d.spawn_with(10, vec![11]);
    d.spawn(11);
    let other = d.spawn(20);
    d.focus(make_window(1, 10, "Target"));
    d.focus(make_window(2, other, "Other"));
    d.advance(200);
    d.kill(10);
    d.reconcile();
    assert_eq!(d.apps().len(), 1);
    // The helper is still stopped, and still recorded.
    assert!(d.is_stopped(11));
    let left = d.engine.journal().procs_for("target");
    assert_eq!(left.len(), 1);
    assert_eq!(left[0].pid, 11);
    d.request(IpcRequest::ThawAll);
    assert!(!d.is_stopped(11));
}

#[test]
fn focus_resumes_and_keeps_what_failed_on_record() {
    let mut d = Daemon::with_journal(reactive_config());
    d.spawn_with(10, vec![11]);
    d.spawn(11);
    let other = d.spawn(20);
    d.focus(make_window(1, 10, "Target"));
    d.focus(make_window(2, other, "Other"));
    d.advance(85);
    assert!(d.is_stopped(10));
    d.stubborn.push(11);
    d.focus(make_window(1, 10, "Target"));
    assert!(!d.is_stopped(10));
    assert_eq!(d.app("Target").state, AppState::Active);
    assert_eq!(d.engine.journal().procs_for("target").len(), 1);
    // The failure is reported once.
    assert_eq!(d.engine.take_notices().len(), 1);
}

#[test]
fn ignored_applications_are_never_suspended() {
    let mut config = reactive_config();
    config
        .rules
        .push(action_rule("leave", "Target", Action::Ignore));
    let mut d = Daemon::start(config);
    let target = d.spawn(10);
    let other = d.spawn(20);
    d.focus(make_window(1, target, "Target"));
    d.focus(make_window(2, other, "Other"));
    assert_eq!(d.engine.next_deadline(), None);
    d.advance(10_000);
    assert_eq!(d.app("Target").state, AppState::Background);
}

#[test]
fn bus_owners_are_collected_when_due() {
    let mut config = reactive_config();
    config.defaults.protection.dbus_check = true;
    config.defaults.protection.dbus_refresh_interval = 60 * SECOND;
    let mut d = Daemon::start(config);
    assert!(d.engine.handle_reconcile(d.now).refresh_bus);
    assert!(!d.engine.handle_reconcile(d.now + SECOND).refresh_bus);
    assert!(d.engine.handle_reconcile(d.now + 61 * SECOND).refresh_bus);
    assert_eq!(d.engine.reconcile_interval(), 50 * MS);
    assert_eq!(d.engine.capabilities(), signal_only());
}

#[test]
fn one_sweep_runs_at_a_time() {
    let mut d = Daemon::start(reactive_config());
    assert!(!d.engine.handle_reconcile(d.now).sweep, "nothing to check");
    let target = d.spawn(10);
    d.focus(make_window(1, target, "Target"));
    assert!(d.engine.handle_reconcile(d.now).sweep);
    assert!(!d.engine.handle_reconcile(d.now).sweep, "one is running");
    let result = d.engine.sweep_snapshot().sweep(&d.procs);
    d.engine.apply_reconcile_result(&result);
    assert!(d.engine.handle_reconcile(d.now).sweep);
}
