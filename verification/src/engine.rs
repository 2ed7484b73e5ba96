//! The engine: decisions of the daemon.
//!
//! Each handler is a function of the engine's state, an event, the time and what
//! was observed of the system. Operations on processes are not performed here: a
//! handler hands out an order, the caller carries it out, and another handler
//! takes the report.
use std::collections::HashMap;
use vstd::prelude::*;

use crate::assoc::Assoc;
use crate::config::matching::RulesEngine;
use crate::config::Config;
use crate::desktop::window::WindowInfo;
use crate::desktop::FocusEvent;
use crate::engine::model::{EngineModel, ReleaseModel, SuspendModel};
use crate::engine::rate_limit::{LogKey, RateLimiter, Topic};
use crate::engine::reconcile::SweepResult;
use crate::engine::suspend::TimerEvent;
use crate::ipc::protocol::IpcRequest;
use crate::metrics::Metrics;

use crate::state::journal::FreezeJournal;
use crate::state::machine::AppState;
use crate::state::registry::AppRegistry;
use crate::system::cgroup::CgroupCapabilities;
use crate::system::power::PowerSource;
use crate::system::process::ProcessHandle;
use crate::system::protection::ProtectionPolicy;
use crate::time::Nanos;

pub mod config_power;
pub mod focus;
pub mod focus_laws;
pub mod ipc_handler;
pub mod laws;
pub mod model;
pub mod rate_limit;
pub mod reconcile;
pub mod request_laws;
pub mod suspend;
pub mod suspend_laws;
pub mod transitions;

verus! {

/// Interval to retry a suspend after a guard block or transient failure.
pub const RETRY_INTERVAL: u128 = 10_000_000_000;

/// Upper bound on the retry backoff after repeated failures.
pub const MAX_RETRY_INTERVAL: u128 = 300_000_000_000;

/// A suspend is given up after this many consecutive failures.
pub const MAX_SUSPEND_ATTEMPTS: u32 = 5;

/// How long an identical warning is suppressed after being emitted once.
pub const LOG_SUPPRESSION_WINDOW: u128 = 300_000_000_000;

/// Events processed by the engine.
#[derive(Debug)]
#[non_exhaustive]
pub enum EngineEvent {
    FocusChanged(WindowInfo),
    WindowClosed { window_id: u64 },
    /// The user switched to a different virtual desktop.
    WorkspaceChanged { desktop: u32 },
    /// A panel or launcher asked for `window_id` to be focused.
    ActivationRequested { window_id: u64 },
    SuspendTimerFired { key: String },
    MaintenanceWake { key: String },
    MaintenanceSleep { key: String },
    ConfigReloaded(Config),
    PowerSourceChanged(PowerSource),
    IpcRequest { request: IpcRequest },
    /// Re-check that tracked processes still exist and retire what is gone.
    Reconcile,
    /// What a reconcile sweep found.
    ReconcileResult(SweepResult),
    /// A refreshed set of session-bus name owners.
    ProtectionRefreshed(HashMap<u32, String>),
    Shutdown,
}

impl From<FocusEvent> for EngineEvent {
    fn from(event: FocusEvent) -> (r: Self) {
        match event {
            FocusEvent::FocusChanged(w) => EngineEvent::FocusChanged(w),
            FocusEvent::WindowClosed { window_id } => EngineEvent::WindowClosed { window_id },
            FocusEvent::WorkspaceChanged { desktop } => EngineEvent::WorkspaceChanged { desktop },
            FocusEvent::ActivationRequested { window_id } => EngineEvent::ActivationRequested {
                window_id,
            },
        }
    }
}

impl vstd::std_specs::convert::FromSpecImpl<FocusEvent> for EngineEvent {
    open spec fn obeys_from_spec() -> bool {
        true
    }

    open spec fn from_spec(event: FocusEvent) -> Self {
        match event {
            FocusEvent::FocusChanged(w) => EngineEvent::FocusChanged(w),
            FocusEvent::WindowClosed { window_id } => EngineEvent::WindowClosed { window_id },
            FocusEvent::WorkspaceChanged { desktop } => EngineEvent::WorkspaceChanged { desktop },
            FocusEvent::ActivationRequested { window_id } => EngineEvent::ActivationRequested {
                window_id,
            },
        }
    }
}

impl From<TimerEvent> for EngineEvent {
    fn from(event: TimerEvent) -> (r: Self) {
        match event {
            TimerEvent::Suspend { key } => EngineEvent::SuspendTimerFired { key },
            TimerEvent::MaintenanceWake { key } => EngineEvent::MaintenanceWake { key },
            TimerEvent::MaintenanceSleep { key } => EngineEvent::MaintenanceSleep { key },
        }
    }
}

impl vstd::std_specs::convert::FromSpecImpl<TimerEvent> for EngineEvent {
    open spec fn obeys_from_spec() -> bool {
        true
    }

    open spec fn from_spec(event: TimerEvent) -> Self {
        match event {
            TimerEvent::Suspend { key } => EngineEvent::SuspendTimerFired { key },
            TimerEvent::MaintenanceWake { key } => EngineEvent::MaintenanceWake { key },
            TimerEvent::MaintenanceSleep { key } => EngineEvent::MaintenanceSleep { key },
        }
    }
}

/// An order to release a suspended application: to thaw it where it is frozen,
/// to lift the throttle where it is throttled.
#[derive(Debug)]
pub struct ReleaseOrder {
    pub key: String,
    pub name: String,
    pub state: AppState,
    pub cgroup_path: Option<String>,
    pub procs: Vec<ProcessHandle>,
}

impl View for ReleaseOrder {
    type V = ReleaseModel;

    open spec fn view(&self) -> ReleaseModel {
        ReleaseModel {
            key: self.key@,
            name: self.name@,
            state: self.state,
            cgroup: self.cgroup_path,
            procs: self.procs@,
        }
    }
}

/// An order to suspend an application.
#[derive(Debug)]
pub struct SuspendOrder {
    pub key: String,
    pub name: String,
    pub cgroup_path: Option<String>,
    pub procs: Vec<ProcessHandle>,
}

impl View for SuspendOrder {
    type V = SuspendModel;

    open spec fn view(&self) -> SuspendModel {
        SuspendModel {
            key: self.key@,
            name: self.name@,
            cgroup: self.cgroup_path,
            procs: self.procs@,
        }
    }
}

/// Coordinates all subsystems.
#[derive(Debug)]
pub struct Engine {
    registry: AppRegistry,
    rules: RulesEngine,
    caps: CgroupCapabilities,
    /// Record of what is suspended, so an abrupt exit is recoverable.
    journal: FreezeJournal,
    /// Processes that must never be suspended.
    protection: ProtectionPolicy,
    /// Suppression of repeated warnings.
    limiter: RateLimiter,
    /// Warnings that are to be logged.
    notices: Vec<LogKey>,
    /// Consecutive failed suspend attempts, for backoff.
    failures: Assoc<u32>,
    metrics: Metrics,
    /// Desktop files, by executable.
    desktops: Assoc<String>,
    enabled: bool,
    power_source: PowerSource,
    forced_power_source: Option<PowerSource>,
    start_time: Nanos,
    reconcile_interval: Nanos,
    dbus_check: bool,
    dbus_refresh_interval: Nanos,
    last_dbus_refresh: Option<Nanos>,
    /// Whether a reconcile sweep is still running.
    reconcile_in_flight: bool,
}

/// The topics of a list of messages.
pub open spec fn topics(v: Seq<LogKey>) -> Seq<Topic> {
    v.map_values(|k: LogKey| k@)
}

impl View for Engine {
    type V = EngineModel;

    closed spec fn view(&self) -> EngineModel {
        EngineModel {
            reg: self.registry@,
            config: self.rules.settings(),
            caps: self.caps,
            journal: self.journal@,
            owed: self.journal.owed(),
            in_memory: self.journal.in_memory(),
            journal_path: self.journal.file_path(),
            owners: self.protection@,
            seen: self.limiter@,
            notices: topics(self.notices@),
            failures: self.failures@,
            metrics: self.metrics,
            desktops: self.desktops@.map_values(|s: String| s@),
            enabled: self.enabled,
            power: self.power_source,
            forced: self.forced_power_source,
            start: self.start_time,
            reconcile_interval: self.reconcile_interval,
            dbus_check: self.dbus_check,
            dbus_refresh_interval: self.dbus_refresh_interval,
            last_refresh: self.last_dbus_refresh,
            in_flight: self.reconcile_in_flight,
        }
    }
}

impl Engine {
    /// Well-formedness of the parts.
    pub closed spec fn wf(&self) -> bool {
        &&& self.registry.wf()
        &&& self.journal.wf()
        &&& self.failures.wf()
        &&& self.desktops.wf()
        &&& self.limiter.suppression() == LOG_SUPPRESSION_WINDOW
    }
}

} // verus!
