use app_powerd_core::config::ResolvedPolicy;
use app_powerd_core::desktop::window::{Desktop, WindowInfo};
use app_powerd_core::error::{JournalError, SystemError};
use app_powerd_core::state::app_entry::{AppEntry, AppId};
use app_powerd_core::state::journal::{
    FreezeJournal, FreezeMethod, JournalEntry, JournalFile, Pending, RecoveryPlan, RecoveryReport,
    JOURNAL_VERSION,
};
use app_powerd_core::state::machine::{AppState, SuspendMode, TransitionAction};
use app_powerd_core::state::process_set::ProcessSet;
use app_powerd_core::state::registry::AppRegistry;
use app_powerd_core::system::freeze::Delivery;
use app_powerd_core::system::process::{ProcessHandle, ProcessRecord, ProcessTable};

fn handle(pid: u32, starttime: u64) -> ProcessHandle {
    ProcessHandle { pid, starttime }
}

fn record(pid: u32, starttime: u64, owned: bool) -> ProcessRecord {
    ProcessRecord {
        pid,
        starttime: Some(starttime),
        owned,
        comm: Some("app".to_string()),
        children: vec![],
    }
}

fn table(records: Vec<ProcessRecord>) -> ProcessTable {
    ProcessTable { records }
}

/// The journal as it would be read back from the file that is owed.
fn reopened(journal: &mut FreezeJournal) -> FreezeJournal {
    let path = journal.path().to_string();
    let file = match journal.take_pending() {
        Pending::Delete => None,
        _ => Some(journal.file()),
    };
    FreezeJournal::load(path, file).expect("own file loads")
}

fn fresh(name: &str) -> FreezeJournal {
    FreezeJournal::load(format!("/run/{name}/frozen.json"), None).expect("missing file loads")
}

// --- Desktop ---

#[test]
fn desktop_from_raw_sticky() {
    assert_eq!(Desktop::from_raw(u32::MAX), Desktop::All);
}

#[test]
fn desktop_from_raw_index() {
    assert_eq!(Desktop::from_raw(3), Desktop::Index(3));
}

#[test]
fn desktop_matches_index() {
    assert!(Desktop::Index(5).matches(5));
    assert!(!Desktop::Index(5).matches(6));
}

#[test]
fn desktop_matches_all() {
    assert!(Desktop::All.matches(0));
    assert!(Desktop::All.matches(u32::MAX - 1));
}

// --- Application identity ---

#[test]
fn app_id_from_window_prefers_wm_class() {
    let mut info = WindowInfo::new(1);
    info.wm_class = Some("Firefox".into());
    info.app_id = Some("org.mozilla.Firefox".into());
    info.executable = Some("firefox".into());
    assert_eq!(AppId::from_window(&info).as_str(), "Firefox");
}

#[test]
fn app_id_from_window_falls_back_to_app_id() {
    let mut info = WindowInfo::new(1);
    info.app_id = Some("org.mozilla.Firefox".into());
    info.executable = Some("firefox".into());
    assert_eq!(AppId::from_window(&info).as_str(), "org.mozilla.Firefox");
}

#[test]
fn app_id_from_window_falls_back_to_executable() {
    let mut info = WindowInfo::new(1);
    info.executable = Some("firefox".into());
    assert_eq!(AppId::from_window(&info).as_str(), "firefox");
}

#[test]
fn app_id_from_window_falls_back_to_window_id() {
    let info = WindowInfo::new(42);
    assert_eq!(AppId::from_window(&info).as_str(), "window-42");
}

#[test]
fn app_id_skips_empty_names() {
    let mut info = WindowInfo::new(7);
    info.wm_class = Some(String::new());
    info.app_id = Some("org.kde.konsole".into());
    let id = AppId::from_window(&info);
    assert_eq!(id.as_str(), "org.kde.konsole");
}

#[test]
fn app_id_keeps_spelling_and_folds_ascii_only() {
    let id = AppId::new("MyApp\u{c4}".to_string());
    assert_eq!(id.as_str(), "MyApp\u{c4}");
    assert_eq!(id.key(), "myapp\u{c4}");
    assert!(id.same_app(&AppId::new("MYAPP\u{c4}".to_string())));
    assert!(!id.same_app(&AppId::new("MyApp\u{e4}".to_string())));
}

#[test]
fn add_window_dedup() {
    let info = WindowInfo::new(1);
    let mut entry = AppEntry::new(
        AppId::from_window(&info),
        info,
        ResolvedPolicy::default(),
        &ProcessTable::new(),
        0,
    );
    entry.add_window(1); // duplicate
    entry.add_window(2);
    assert_eq!(entry.window_ids().len(), 2);
}

#[test]
fn remove_window_returns_empty() {
    let info = WindowInfo::new(1);
    let mut entry = AppEntry::new(
        AppId::from_window(&info),
        info,
        ResolvedPolicy::default(),
        &ProcessTable::new(),
        0,
    );
    entry.add_window(2);
    assert!(!entry.remove_window(1)); // still has window 2
    assert!(entry.remove_window(2)); // now empty
}

#[test]
fn entry_is_defunct_only_after_its_processes_exited() {
    let mut info = WindowInfo::new(1);
    info.pid = Some(10);
    let procs = table(vec![record(10, 5, true)]);
    let mut entry = AppEntry::new(
        AppId::from_window(&info),
        info,
        ResolvedPolicy::default(),
        &procs,
        0,
    );
    assert!(!entry.is_defunct());
    entry.remove_pids(&vec![10]);
    assert!(entry.is_defunct());

    // An application that never owned a process is not gone.
    let bare = WindowInfo::new(2);
    let entry = AppEntry::new(
        AppId::from_window(&bare),
        bare,
        ResolvedPolicy::default(),
        &procs,
        0,
    );
    assert!(!entry.is_defunct());
}

#[test]
fn resume_grace_counts_from_the_last_active_time() {
    let info = WindowInfo::new(1);
    let mut entry = AppEntry::new(
        AppId::from_window(&info),
        info,
        ResolvedPolicy::default(),
        &ProcessTable::new(),
        0,
    );
    entry.set_state(AppState::Background, 1_000_000_000);
    assert!(entry.in_resume_grace(2_999_999_999));
    assert!(!entry.in_resume_grace(3_000_000_000));
}

// --- Registry ---

fn entry(window: u64, class: &str) -> AppEntry {
    let mut info = WindowInfo::new(window);
    info.wm_class = Some(class.to_string());
    AppEntry::new(
        AppId::from_window(&info),
        info,
        ResolvedPolicy::default(),
        &ProcessTable::new(),
        0,
    )
}

#[test]
fn registry_files_applications_by_folded_name() {
    let mut registry = AppRegistry::new();
    registry.insert(entry(1, "Firefox"));
    registry.insert(entry(2, "Chrome"));
    assert_eq!(registry.len(), 2);
    assert!(registry.get("firefox").is_some());
    assert!(registry.get("Firefox").is_none());
    assert_eq!(registry.keys(), vec!["firefox".to_string(), "chrome".to_string()]);
}

#[test]
fn registry_drops_an_application_with_its_last_window() {
    let mut registry = AppRegistry::new();
    registry.insert(entry(1, "Firefox"));
    assert!(registry.remove_window(99).is_none());
    let removed = registry.remove_window(1).expect("last window closed");
    assert_eq!(removed.app_id().as_str(), "Firefox");
    assert!(registry.is_empty());
}

#[test]
fn registry_keeps_an_application_until_its_last_window() {
    let mut registry = AppRegistry::new();
    let id = registry.insert(entry(1, "A"));
    registry.get_mut(id.key()).expect("tracked").add_window(2);
    assert!(registry.remove_window(1).is_none());
    assert!(registry.get(id.key()).expect("still tracked").has_window(2));
    let removed = registry.remove_window(2).expect("last window closed");
    assert_eq!(removed.app_id().as_str(), "A");
    assert!(registry.get(id.key()).is_none());
    assert!(registry.is_empty());
}

#[test]
fn registry_takes_a_closed_window_from_every_application() {
    let mut registry = AppRegistry::new();
    registry.insert(entry(1, "A"));
    registry.insert(entry(2, "B"));
    registry.get_mut("b").expect("tracked").add_window(1);
    // The window was seen under both names; only the first has no other.
    assert_eq!(registry.remove_window(1).expect("closed").app_id().as_str(), "A");
    assert_eq!(registry.remove_window(2).expect("closed").app_id().as_str(), "B");
    assert!(registry.is_empty());
}

#[test]
fn registry_removal_forgets_the_windows() {
    let mut registry = AppRegistry::new();
    registry.insert(entry(1, "Firefox"));
    assert!(registry.remove_app("firefox").is_some());
    assert!(registry.remove_window(1).is_none());
}

// --- State machine ---

#[test]
fn active_to_background_on_focus_lost() {
    let (state, action) = AppState::Active.on_focus_lost();
    assert_eq!(state, AppState::Background);
    assert_eq!(action, TransitionAction::StartSuspendTimer);
}

#[test]
fn background_to_active_on_focus_gained() {
    let (state, action) = AppState::Background.on_focus_gained();
    assert_eq!(state, AppState::Active);
    assert_eq!(action, TransitionAction::CancelSuspendTimer);
}

#[test]
fn frozen_to_active_on_focus_gained() {
    let (state, action) = AppState::Frozen.on_focus_gained();
    assert_eq!(state, AppState::Active);
    assert_eq!(action, TransitionAction::Thaw);
}

#[test]
fn background_to_frozen_on_timer() {
    let (state, action) = AppState::Background.on_suspend_timer(SuspendMode::Freeze);
    assert_eq!(state, AppState::Frozen);
    assert_eq!(action, TransitionAction::ApplyFreeze);
}

#[test]
fn background_to_throttled_on_timer() {
    let (state, action) = AppState::Background.on_suspend_timer(SuspendMode::Throttle);
    assert_eq!(state, AppState::Throttled);
    assert_eq!(action, TransitionAction::ApplyThrottle);
}

#[test]
fn already_frozen_ignores_focus_lost() {
    let (state, action) = AppState::Frozen.on_focus_lost();
    assert_eq!(state, AppState::Frozen);
    assert_eq!(action, TransitionAction::NoOp);
}

#[test]
fn active_ignores_suspend_timer() {
    let (state, action) = AppState::Active.on_suspend_timer(SuspendMode::Freeze);
    assert_eq!(state, AppState::Active);
    assert_eq!(action, TransitionAction::NoOp);
}

#[test]
fn frozen_ignores_suspend_timer() {
    let (state, action) = AppState::Frozen.on_suspend_timer(SuspendMode::Throttle);
    assert_eq!(state, AppState::Frozen);
    assert_eq!(action, TransitionAction::NoOp);
}

#[test]
fn throttled_is_unthrottled_on_focus_gained() {
    let (state, action) = AppState::Throttled.on_focus_gained();
    assert_eq!(state, AppState::Active);
    assert_eq!(action, TransitionAction::RemoveThrottle);
}

#[test]
fn states_are_named_in_capitals() {
    assert_eq!(AppState::Active.name(), "ACTIVE");
    assert_eq!(AppState::Background.name(), "BACKGROUND");
    assert_eq!(AppState::Throttled.name(), "THROTTLED");
    assert_eq!(AppState::Frozen.name(), "FROZEN");
}

// --- Process set ---

#[test]
fn insert_deduplicates() {
    let mut set = ProcessSet::default();
    set.insert(handle(1, 10));
    set.insert(handle(1, 10));
    set.insert(handle(2, 11));
    assert_eq!(set.pids(), vec![1, 2]);
}

#[test]
fn same_pid_different_starttime_is_distinct() {
    let mut set = ProcessSet::default();
    set.insert(handle(1, 10));
    set.insert(handle(1, 99));
    assert_eq!(set.handles().len(), 2);
}

#[test]
fn empty_set_never_populated_reports_no_live_procs() {
    let set = ProcessSet::default();
    assert!(set.is_empty());
    assert!(!set.had_live_procs());
}

#[test]
fn retain_alive_drops_synthetic_handles() {
    let procs = table(vec![record(500, 77, true)]);
    let mut set = ProcessSet::default();
    // A synthetic starttime cannot match any real process.
    set.insert(handle(500, u64::MAX));
    let reaped = set.retain_alive(&procs);
    assert_eq!(reaped.len(), 1);
    assert!(set.is_empty());
    // The set *did* hold something once, which is what marks the app gone.
    assert!(set.had_live_procs());
}

#[test]
fn retain_alive_keeps_live_process() {
    let procs = table(vec![record(500, 77, true)]);
    let mut set = ProcessSet::default();
    set.insert_pid(500, &procs).expect("own pid");
    assert!(set.retain_alive(&procs).is_empty());
    assert!(!set.is_empty());
}

#[test]
fn remove_pids_drops_named_entries() {
    let mut set = ProcessSet::default();
    set.insert(handle(1, 10));
    set.insert(handle(2, 11));
    set.remove_pids(&vec![1]);
    assert_eq!(set.pids(), vec![2]);
}

// --- Journal ---

#[test]
fn arm_commit_roundtrip() {
    let mut journal = fresh("roundtrip");
    let planned = vec![handle(1, 10), handle(2, 11)];
    journal.arm("Firefox", FreezeMethod::Signal, None, &planned);
    assert!(matches!(journal.take_pending(), Pending::Write));
    journal.commit("Firefox", &planned, &vec![handle(1, 10)]);

    let reloaded = reopened(&mut journal);
    let entry = reloaded.entry_at(0);
    assert_eq!(entry.app_id, "Firefox");
    assert_eq!(entry.procs, vec![handle(1, 10)]);
}

#[test]
fn arm_keeps_processes_left_by_an_earlier_partial_thaw() {
    let mut journal = fresh("arm-merge");
    journal.arm(
        "Chrome",
        FreezeMethod::Signal,
        None,
        &vec![handle(1, 10), handle(2, 11)],
    );
    // Thaw released only pid 1; pid 2 stays recorded as still stopped.
    journal.retire("Chrome", &vec![1]);

    // The next freeze sees a different tree that no longer contains pid 2.
    let planned = vec![handle(3, 12)];
    journal.arm("Chrome", FreezeMethod::Signal, None, &planned);
    journal.commit("Chrome", &planned, &planned);

    let reloaded = reopened(&mut journal);
    let procs = &reloaded.entry_at(0).procs;
    assert!(
        procs.contains(&handle(2, 11)),
        "the process left stopped by the failed thaw must still be recorded, got {procs:?}"
    );
    assert!(procs.contains(&handle(3, 12)));
}

#[test]
fn commit_only_narrows_planned_processes() {
    let mut journal = fresh("commit-narrow");
    journal.arm("App", FreezeMethod::Signal, None, &vec![handle(9, 90)]);
    journal.retire("App", &vec![]);

    let planned = vec![handle(1, 10), handle(2, 11)];
    journal.arm("App", FreezeMethod::Signal, None, &planned);
    // Only pid 1 was reached this time.
    journal.commit("App", &planned, &vec![handle(1, 10)]);

    let reloaded = reopened(&mut journal);
    let procs = &reloaded.entry_at(0).procs;
    assert!(procs.contains(&handle(9, 90)), "carry-over kept");
    assert!(procs.contains(&handle(1, 10)), "applied kept");
    assert!(
        !procs.contains(&handle(2, 11)),
        "planned-but-unreached dropped"
    );
}

#[test]
fn retire_keeps_processes_that_were_not_released() {
    let mut journal = fresh("partial-retire");
    journal.arm(
        "Chrome",
        FreezeMethod::Signal,
        None,
        &vec![handle(1, 10), handle(2, 11)],
    );
    journal.retire("Chrome", &vec![1]);

    let reloaded = reopened(&mut journal);
    assert_eq!(reloaded.len(), 1, "entry must survive");
    assert_eq!(reloaded.entry_at(0).procs, vec![handle(2, 11)]);
}

#[test]
fn retire_removes_entry_when_all_released() {
    let mut journal = fresh("full-retire");
    journal.arm("Chrome", FreezeMethod::Signal, None, &vec![handle(1, 10)]);
    journal.retire("Chrome", &vec![1]);
    assert!(reopened(&mut journal).is_empty());
}

#[test]
fn unknown_version_errors_and_is_preserved() {
    let file = JournalFile {
        version: 99,
        entries: vec![],
    };
    assert!(matches!(
        FreezeJournal::load("/run/version/frozen.json".to_string(), Some(file)),
        Err(JournalError::UnsupportedVersion { found: 99, .. })
    ));
}

#[test]
fn unknown_method_parses_as_unknown() {
    let raw = r#"{"version":1,"entries":[{"app_id":"X","method":"quantum","procs":[]}]}"#;
    let value: serde_json::Value = serde_json::from_str(raw).unwrap();
    let row = &value["entries"][0];
    let file = JournalFile {
        version: value["version"].as_u64().unwrap() as u32,
        entries: vec![JournalEntry {
            app_id: row["app_id"].as_str().unwrap().to_string(),
            method: FreezeMethod::from_name(row["method"].as_str().unwrap()),
            cgroup_path: None,
            procs: vec![],
        }],
    };
    let journal = FreezeJournal::load("/run/method/frozen.json".to_string(), Some(file)).unwrap();
    assert_eq!(journal.entry_at(0).method, FreezeMethod::Unknown);
}

#[test]
fn freeze_methods_are_read_back_by_name() {
    assert_eq!(FreezeMethod::Cgroup.name(), "cgroup");
    assert_eq!(FreezeMethod::Signal.name(), "signal");
    assert_eq!(FreezeMethod::from_name("cgroup"), FreezeMethod::Cgroup);
    assert_eq!(FreezeMethod::from_name("signal"), FreezeMethod::Signal);
    assert_eq!(FreezeMethod::from_name("Signal"), FreezeMethod::Unknown);
}

fn file_with(procs: Vec<ProcessHandle>) -> JournalFile {
    JournalFile {
        version: JOURNAL_VERSION,
        entries: vec![JournalEntry {
            app_id: "ghost".to_string(),
            method: FreezeMethod::Signal,
            cgroup_path: None,
            procs,
        }],
    }
}

#[test]
fn recover_skips_recycled_pids() {
    let procs = table(vec![record(500, 77, true)]);
    let plan = RecoveryPlan::new(&file_with(vec![handle(500, u64::MAX)]), &procs);
    assert!(plan.resume.is_empty());
    let report = plan.report(&vec![]);
    assert_eq!(report.thawed, 0);
    assert_eq!(report.stale, 1);
}

#[test]
fn recover_on_missing_file_is_a_noop() {
    let journal = FreezeJournal::load("/run/missing/frozen.json".to_string(), None).unwrap();
    let report = RecoveryPlan::new(&journal.file(), &ProcessTable::new()).report(&vec![]);
    assert_eq!(report, RecoveryReport::default());
    assert!(report.is_empty());
}

#[test]
fn recover_resumes_only_what_is_alive_and_owned() {
    let procs = table(vec![
        record(1, 10, true),
        record(2, 20, false),
        record(3, 30, true),
    ]);
    let plan = RecoveryPlan::new(
        &file_with(vec![handle(1, 10), handle(2, 20), handle(3, 31), handle(4, 40)]),
        &procs,
    );
    assert_eq!(plan.resume, vec![handle(1, 10)]);
    assert_eq!(plan.stale, 2);
    assert_eq!(plan.not_owned, 1);
    let report = plan.report(&vec![Delivery::Done]);
    assert_eq!((report.thawed, report.stale, report.not_owned), (1, 2, 1));
}

#[test]
fn sweep_drops_entries_whose_processes_all_died() {
    let procs = table(vec![record(500, 77, true)]);
    let mut journal = fresh("sweep");
    journal.arm(
        "Dead",
        FreezeMethod::Signal,
        None,
        &vec![handle(500, u64::MAX)],
    );
    assert_eq!(journal.sweep_dead(&procs), 1);
    assert!(journal.is_empty());
}

#[test]
fn freeze_and_thaw_leave_nothing_recorded() {
    let mut journal = fresh("round");
    let planned = vec![handle(1, 10), handle(2, 11)];
    journal.arm("App", FreezeMethod::Cgroup, Some("/cg".to_string()), &planned);
    journal.commit("App", &planned, &planned);
    journal.retire("App", &vec![1, 2]);
    assert!(journal.is_empty());
    assert!(journal.all_procs().is_empty());
}

#[test]
fn recorded_processes_are_listed_in_order_and_once() {
    let mut journal = FreezeJournal::disabled();
    journal.arm("App", FreezeMethod::Signal, None, &vec![handle(9, 90)]);
    let planned = vec![handle(1, 10), handle(2, 11)];
    journal.arm("App", FreezeMethod::Signal, None, &planned);
    journal.commit("App", &planned, &vec![handle(1, 10)]);
    assert_eq!(journal.all_procs(), vec![handle(9, 90), handle(1, 10)]);
}

#[test]
fn only_resumed_processes_count_as_thawed() {
    let procs = table(vec![record(1, 10, true), record(2, 20, true), record(3, 30, true)]);
    let plan = RecoveryPlan::new(
        &file_with(vec![handle(1, 10), handle(2, 20), handle(3, 30)]),
        &procs,
    );
    let refused = Delivery::Refused(SystemError::ProcessNotFound { pid: 3 });
    let report = plan.report(&vec![Delivery::Done, Delivery::Dead, refused]);
    assert_eq!((report.thawed, report.stale, report.not_owned), (1, 0, 0));
}

#[test]
fn a_journal_without_a_file_owes_no_write() {
    let mut journal = FreezeJournal::disabled();
    assert!(journal.is_disabled());
    journal.arm("App", FreezeMethod::Signal, None, &vec![handle(1, 10)]);
    assert!(matches!(journal.take_pending(), Pending::Nothing));
    assert_eq!(journal.procs_for("App"), vec![handle(1, 10)]);
}

#[test]
fn clearing_owes_a_deletion() {
    let mut journal = fresh("clear");
    journal.arm("App", FreezeMethod::Signal, None, &vec![handle(1, 10)]);
    journal.clear();
    assert!(journal.is_empty());
    assert!(matches!(journal.take_pending(), Pending::Delete));
    assert!(matches!(journal.take_pending(), Pending::Nothing));
}

#[test]
fn journal_lives_in_the_runtime_directory() {
    assert_eq!(
        FreezeJournal::default_path("/run/user/1000"),
        "/run/user/1000/app-powerd/frozen.json"
    );
}
