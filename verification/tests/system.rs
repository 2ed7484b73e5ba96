use std::collections::HashMap;

use app_powerd_core::error::SystemError;
use app_powerd_core::system::apply::{ApplyReport, PidOutcome};
use app_powerd_core::system::cgroup::{
    cgroup_candidates, cgroup_fallback, cpu_max_reset, cpu_max_value, create_cgroup,
    is_stale_cgroup, CgroupCapabilities, CgroupCapability, CgroupProbe, CgroupRequest,
};
use app_powerd_core::config::ThrottleParams;
use app_powerd_core::system::desktop_index::{
    application_dirs, build_desktop_index, is_desktop_file, DesktopFile,
};
use app_powerd_core::system::freeze::{
    apply_signal, classify, group_report, may_signal, pid_to_raw, uses_cgroup, Delivery, ESRCH,
};
use app_powerd_core::system::power::{detect_power_source, PowerSource, Supply};
use app_powerd_core::system::process::{
    cmdline_text, descendant_pids, exe_basename, expand_tree, parse_children, parse_comm,
    parse_exec_from_desktop, parse_starttime, ProcessHandle, ProcessRecord, ProcessTable,
};
use app_powerd_core::system::protection::{
    collect_dbus_owners, matches_deny_list, ProtectionPolicy, ProtectionReason,
};
use app_powerd_core::system::throttle::{apply_throttle, cpu_writes, set_nice};
use app_powerd_core::system::{join_path, runtime_dir, sanitize_unit_name};

fn handle(pid: u32) -> ProcessHandle {
    ProcessHandle { pid, starttime: 1 }
}

fn record(pid: u32, comm: Option<&str>, children: Vec<u32>) -> ProcessRecord {
    ProcessRecord {
        pid,
        starttime: Some(1),
        owned: true,
        comm: comm.map(|c| c.to_string()),
        children,
    }
}

// --- Reports ---

#[test]
fn gone_is_not_an_error() {
    let mut report = ApplyReport::default();
    report.record(handle(7), Err(SystemError::ProcessGone { pid: 7 }));
    assert!(!report.had_real_error());
    assert!(report.nothing_applied());
    assert_eq!(report.gone, vec![7]);
}

#[test]
fn failure_is_an_error() {
    let mut report = ApplyReport::default();
    let eperm = nix::errno::Errno::EPERM;
    report.record(
        handle(9),
        Err(SystemError::Nix {
            code: eperm as i32,
            text: eperm.to_string(),
        }),
    );
    assert!(report.had_real_error());
    assert!(report.nothing_applied());
}

#[test]
fn applied_clears_nothing_applied() {
    let mut report = ApplyReport::default();
    report.record(handle(3), Ok(()));
    report.record(handle(4), Err(SystemError::ProcessGone { pid: 4 }));
    assert!(!report.nothing_applied());
    assert!(!report.had_real_error());
    let mut settled = report.settled_pids();
    settled.sort_unstable();
    assert_eq!(settled, vec![3, 4]);
}

#[test]
fn outcomes_are_filed_by_kind() {
    let mut report = ApplyReport::default();
    report.push(PidOutcome::Applied(handle(1)));
    report.push(PidOutcome::Gone(2));
    report.push(PidOutcome::Failed(3, SystemError::NoCgroupCapability));
    assert_eq!(report.applied, vec![handle(1)]);
    assert_eq!(report.gone, vec![2]);
    assert_eq!(report.failed.len(), 1);
    assert_eq!(report.failed[0].0, 3);
}

// --- Signals ---

#[test]
fn classify_maps_esrch_to_process_gone() {
    assert_eq!(nix::errno::Errno::ESRCH as i32, ESRCH);
    let err = classify(42, Some((ESRCH, "no such process".to_string()))).unwrap_err();
    assert!(matches!(err, SystemError::ProcessGone { pid: 42 }));
}

#[test]
fn classify_preserves_other_errnos() {
    let eperm = nix::errno::Errno::EPERM as i32;
    let err = classify(42, Some((eperm, "not permitted".to_string()))).unwrap_err();
    assert!(matches!(err, SystemError::Nix { code, .. } if code == eperm));
    assert!(classify(42, None).is_ok());
}

#[test]
fn stale_handle_is_reported_gone_without_signalling() {
    let stale = ProcessHandle {
        pid: 500,
        starttime: u64::MAX,
    };
    let procs = ProcessTable {
        records: vec![record(500, Some("app"), vec![])],
    };
    assert!(!may_signal(stale, &procs), "must not signal a stale handle");
    let report = apply_signal(&vec![stale], vec![Delivery::Dead]);
    assert_eq!(report.gone, vec![500]);
    assert!(report.applied.is_empty());
}

#[test]
fn signalling_reports_each_process() {
    let procs = vec![handle(1), handle(2), handle(3)];
    let report = apply_signal(
        &procs,
        vec![
            Delivery::Done,
            Delivery::Refused(SystemError::ProcessGone { pid: 2 }),
            Delivery::Refused(SystemError::Nix {
                code: 1,
                text: "no".to_string(),
            }),
        ],
    );
    assert_eq!(report.applied, vec![handle(1)]);
    assert_eq!(report.gone, vec![2]);
    assert_eq!(report.failed.len(), 1);
}

#[test]
fn pid_zero_and_huge_pids_are_no_targets() {
    assert!(matches!(
        pid_to_raw(0),
        Err(SystemError::ProcessNotFound { pid: 0 })
    ));
    assert!(pid_to_raw(u32::MAX).is_err());
    assert_eq!(pid_to_raw(42).unwrap(), 42);
}

#[test]
fn group_report_counts_the_living() {
    let procs = ProcessTable {
        records: vec![record(1, None, vec![])],
    };
    let report = group_report(&vec![handle(1), handle(2)], &procs);
    assert_eq!(report.applied, vec![handle(1)]);
    assert_eq!(report.gone, vec![2]);
}

#[test]
fn freezer_is_used_only_with_a_cgroup() {
    let caps = CgroupCapabilities {
        tier: CgroupCapability::DirectWrite,
        freezer: true,
        cpu_control: false,
    };
    assert!(uses_cgroup(caps, true));
    assert!(!uses_cgroup(caps, false));
}

// --- Throttling ---

#[test]
fn set_nice_on_missing_process_reports_gone() {
    assert!(matches!(
        set_nice(0, None),
        Err(SystemError::ProcessNotFound { pid: 0 })
    ));
}

#[test]
fn set_nice_classifies_failures() {
    assert!(set_nice(5, None).is_ok());
    assert!(matches!(
        set_nice(5, Some((ESRCH, "gone".to_string()))),
        Err(SystemError::ProcessGone { pid: 5 })
    ));
    assert!(matches!(
        set_nice(5, Some((1, "no".to_string()))),
        Err(SystemError::Nix { code: 1, .. })
    ));
}

#[test]
fn cpu_limits_need_a_cgroup_and_the_controller() {
    let params = ThrottleParams {
        nice: None,
        cpu_weight: Some(20),
        cpu_quota: Some("40%".to_string()),
    };
    let mut caps = CgroupCapabilities {
        tier: CgroupCapability::DirectWrite,
        freezer: true,
        cpu_control: true,
    };
    let writes = cpu_writes(caps, true, &params);
    assert_eq!(writes.weight.as_deref(), Some("20"));
    assert_eq!(writes.max.as_deref(), Some("40000 100000"));
    caps.cpu_control = false;
    let writes = cpu_writes(caps, true, &params);
    assert!(writes.weight.is_none() && writes.max.is_none());
}

#[test]
fn throttle_that_lands_nothing_is_not_applied() {
    let report = apply_throttle(
        &vec![handle(1)],
        vec![Delivery::Refused(SystemError::Nix {
            code: 1,
            text: "no".to_string(),
        })],
        true,
        false,
    );
    assert!(report.nothing_applied());
    assert!(report.had_real_error());
}

// --- Names and paths ---

#[test]
fn sanitize_simple_name() {
    assert_eq!(sanitize_unit_name("firefox"), "firefox");
}

#[test]
fn sanitize_dots_to_dashes() {
    assert_eq!(
        sanitize_unit_name("org.telegram.desktop"),
        "org-telegram-desktop"
    );
}

#[test]
fn sanitize_special_chars() {
    let result = sanitize_unit_name("app/with spaces");
    assert!(!result.contains('/'));
    assert!(!result.contains(' '));
    assert_eq!(result, "app-with-spaces");
}

#[test]
fn sanitize_keeps_letters_of_other_scripts() {
    assert_eq!(sanitize_unit_name("окно_1-x"), "окно_1-x");
    assert_eq!(sanitize_unit_name("a—b"), "a-b");
    assert_eq!(sanitize_unit_name("org.telegram.desktop"), "org-telegram-desktop");
}

#[test]
fn paths_are_joined_with_one_slash() {
    assert_eq!(join_path("/run", "x"), "/run/x");
    assert_eq!(join_path("/run/", "x"), "/run/x");
    assert_eq!(join_path("", "x"), "x");
    assert_eq!(runtime_dir(None, 1000), "/run/user/1000");
    assert_eq!(runtime_dir(Some("/tmp/rt"), 1000), "/tmp/rt");
}

// --- Processes ---

#[test]
fn starttime_index_after_last_paren() {
    // Fields 1..=22 with a hostile comm; starttime (field 22) is 987654.
    let stat = "42 (weird ) name) S 1 42 42 0 -1 4194304 100 0 0 0 5 6 0 0 20 0 1 0 987654 \
                12345678 900 18446744073709551615";
    assert_eq!(parse_starttime(stat), Some(987654));
}

#[test]
fn starttime_with_ordinary_comm() {
    let stat = "1 (systemd) S 0 1 1 0 -1 4194560 200 0 0 0 10 20 0 0 20 0 1 0 4242 \
                170000000 3000 18446744073709551615";
    assert_eq!(parse_starttime(stat), Some(4242));
}

#[test]
fn starttime_rejects_malformed_records() {
    assert_eq!(parse_starttime(""), None);
    assert_eq!(parse_starttime("42 no-parens S 1"), None);
    // Truncated: fewer than 22 fields.
    assert_eq!(parse_starttime("42 (sh) S 1 42 42 0 -1"), None);
}

#[test]
fn process_handle_rejects_pid_zero() {
    let procs = ProcessTable {
        records: vec![record(0, Some("idle"), vec![])],
    };
    assert!(ProcessHandle::open(0, &procs).is_none());
}

#[test]
fn process_handle_detects_starttime_mismatch() {
    let procs = ProcessTable {
        records: vec![record(500, Some("app"), vec![])],
    };
    let real = ProcessHandle::open(500, &procs).unwrap();
    assert!(real.is_alive(&procs));
    assert!(real.is_owned(&procs));
    let impostor = ProcessHandle {
        pid: real.pid,
        starttime: real.starttime.wrapping_add(1),
    };
    assert!(!impostor.is_alive(&procs));
}

#[test]
fn process_handle_open_reaped_child_is_none() {
    assert!(ProcessHandle::open(77, &ProcessTable::new()).is_none());
}

#[test]
fn comm_is_trimmed_and_never_empty() {
    assert_eq!(parse_comm("firefox\n").as_deref(), Some("firefox"));
    assert_eq!(parse_comm("\n"), None);
}

#[test]
fn cmdline_arguments_are_joined_by_spaces() {
    assert_eq!(cmdline_text("/usr/bin/x\0--flag\0"), "/usr/bin/x --flag");
    assert_eq!(cmdline_text(""), "");
}

#[test]
fn executable_name_is_the_last_component() {
    assert_eq!(exe_basename("/usr/bin/firefox"), "firefox");
}

#[test]
fn expand_tree_includes_self() {
    let procs = ProcessTable {
        records: vec![record(500, Some("app"), vec![])],
    };
    let handles = expand_tree(&[500], &procs);
    assert!(handles.iter().any(|h| h.pid == 500));
}

#[test]
fn expand_tree_reaches_grandchildren_once() {
    let procs = ProcessTable {
        records: vec![
            record(1, None, vec![2, 3]),
            record(2, None, vec![4]),
            record(3, None, vec![4, 1]),
            record(4, None, vec![]),
            record(5, None, vec![]),
        ],
    };
    let mut pids: Vec<u32> = expand_tree(&[1], &procs).iter().map(|h| h.pid).collect();
    pids.sort_unstable();
    assert_eq!(pids, vec![1, 2, 3, 4]);
    let mut below = descendant_pids(2, &procs);
    below.sort_unstable();
    assert_eq!(below, vec![4]);
}

#[test]
fn a_tree_is_walked_from_the_top_of_the_stack() {
    let procs = ProcessTable {
        records: vec![
            record(1, None, vec![2, 3]),
            record(2, None, vec![4]),
            record(3, None, vec![5, 6]),
            record(4, None, vec![]),
            record(5, None, vec![]),
            record(6, None, vec![]),
            record(7, None, vec![1, 8]),
        ],
    };
    assert_eq!(descendant_pids(1, &procs), vec![2, 3, 5, 6, 4]);
    let pids: Vec<u32> = expand_tree(&[3, 7], &procs).iter().map(|h| h.pid).collect();
    assert_eq!(pids, vec![3, 5, 6, 7, 1, 2, 4]);
}

#[test]
fn children_lists_skip_what_is_no_number() {
    assert_eq!(parse_children("12 34 x 56\n"), vec![12, 34, 56]);
}

#[test]
fn parse_exec_simple_path() {
    assert_eq!(
        parse_exec_from_desktop("[Desktop Entry]\nExec=/usr/bin/firefox %u\n"),
        Some("firefox".to_string())
    );
}

#[test]
fn parse_exec_with_env_prefix() {
    assert_eq!(
        parse_exec_from_desktop("[Desktop Entry]\nExec=env GDK_BACKEND=wayland telegram-desktop\n"),
        Some("telegram-desktop".to_string())
    );
}

#[test]
fn parse_exec_with_multiple_env_vars() {
    assert_eq!(
        parse_exec_from_desktop("[Desktop Entry]\nExec=env VAR1=a VAR2=b /opt/app/myapp --flag\n"),
        Some("myapp".to_string())
    );
}

#[test]
fn parse_exec_bare_command() {
    assert_eq!(
        parse_exec_from_desktop("[Desktop Entry]\nExec=code --unity-launch %F\n"),
        Some("code".to_string())
    );
}

#[test]
fn parse_exec_no_exec_line() {
    assert_eq!(
        parse_exec_from_desktop("[Desktop Entry]\nName=Test\n"),
        None
    );
}

#[test]
fn exec_of_another_group_does_not_count() {
    assert_eq!(
        parse_exec_from_desktop("[Desktop Action New]\nExec=other\n[Desktop Entry]\nExec=main\n"),
        Some("main".to_string())
    );
}

// --- Desktop files ---

#[test]
fn desktop_files_are_known_by_extension() {
    assert!(is_desktop_file("firefox.desktop"));
    assert!(is_desktop_file("org.kde.konsole.desktop"));
    assert!(!is_desktop_file(".desktop"));
    assert!(!is_desktop_file("desktop"));
    assert!(!is_desktop_file("firefox.desktop.bak"));
}

#[test]
fn later_desktop_files_win() {
    let file = |name: &str, exec: &str| DesktopFile {
        name: name.to_string(),
        content: format!("[Desktop Entry]\nExec={exec}\n"),
    };
    let index = build_desktop_index(&vec![
        file("a.desktop", "/usr/bin/firefox"),
        file("b.desktop", "firefox %u"),
        file("c.txt", "firefox"),
        file("d.desktop", "konsole"),
    ]);
    assert_eq!(index.len(), 2);
    assert_eq!(index.get("firefox").unwrap(), "b.desktop");
    assert_eq!(index.get("konsole").unwrap(), "d.desktop");
}

#[test]
fn application_directories_follow_the_environment() {
    assert_eq!(
        application_dirs(None, None, Some("/home/u")),
        vec![
            "/usr/local/share/applications",
            "/usr/share/applications",
            "/home/u/.local/share/applications"
        ]
    );
    assert_eq!(
        application_dirs(Some("/a:/b/"), Some("/home/u/data"), Some("/home/u")),
        vec!["/a/applications", "/b/applications", "/home/u/data/applications"]
    );
}

// --- Protection ---

#[test]
fn exact_match_is_case_insensitive() {
    assert!(matches_deny_list("zenity").is_some());
    assert!(matches_deny_list("Zenity").is_some());
    assert!(matches_deny_list("ZENITY").is_some());
}

#[test]
fn prefix_patterns_match() {
    assert!(matches_deny_list("xdg-desktop-portal").is_some());
    assert!(matches_deny_list("xdg-desktop-portal-gtk").is_some());
    assert!(matches_deny_list("pinentry-gtk").is_some());
    assert!(matches_deny_list("PINENTRY-curses").is_some());
    assert!(matches_deny_list("polkit-gnome-authentication-agent-1").is_some());
    assert!(matches_deny_list("systemd-userdbd").is_some());
}

#[test]
fn wrapper_prefixed_names_match() {
    assert!(matches_deny_list(".gvfsd-real").is_some());
    assert!(matches_deny_list(".at-spi2-registryd-real").is_some());
}

#[test]
fn non_ascii_names_do_not_panic() {
    assert!(matches_deny_list("polkitЖ").is_none());
    assert!(matches_deny_list("Ж").is_none());
    assert!(matches_deny_list("gvfsЖd").is_none());
    // A genuinely matching name with a non-ASCII tail must still match.
    assert!(matches_deny_list("polkit-Ж").is_some());
    assert!(matches_deny_list("systemdЖ").is_some());
}

#[test]
fn ordinary_applications_are_not_denied() {
    assert!(matches_deny_list("firefox").is_none());
    assert!(matches_deny_list("Alacritty").is_none());
    assert!(matches_deny_list("telegram-desktop").is_none());
    // Prefix patterns must not match a shorter string.
    assert!(matches_deny_list("xdg").is_none());
}

#[test]
fn unknown_executable_is_protected() {
    let policy = ProtectionPolicy::default();
    assert!(matches!(
        policy.check(0, None, &ProcessTable::new()),
        Some(ProtectionReason::Unidentifiable)
    ));
}

#[test]
fn dbus_owner_is_protected_without_a_bus() {
    let mut policy = ProtectionPolicy::default();
    policy.apply_refresh(HashMap::from([(
        4242,
        "org.freedesktop.portal.Desktop".to_string(),
    )]));
    let verdict = policy.check(4242, Some("some-unknown-daemon"), &ProcessTable::new());
    assert!(matches!(
        verdict,
        Some(ProtectionReason::DbusNameOwner(name)) if name == "org.freedesktop.portal.Desktop"
    ));
}

#[test]
fn partition_splits_protected_from_allowed() {
    let mut policy = ProtectionPolicy::default();
    policy.apply_refresh(HashMap::from([(100, "org.example".to_string())]));
    let table = ProcessTable {
        records: vec![
            record(100, Some("helper"), vec![]),
            record(200, Some("app"), vec![]),
        ],
    };
    let procs = vec![handle(100), handle(200)];
    let (allowed, protected) = policy.partition(&procs, &vec![], &table);
    assert_eq!(protected.len(), 1);
    assert_eq!(protected[0].0, 100);
    assert_eq!(allowed.len(), 1);
}

#[test]
fn the_application_itself_may_own_a_bus_name() {
    let mut policy = ProtectionPolicy::default();
    policy.apply_refresh(HashMap::from([(100, "org.example".to_string())]));
    let table = ProcessTable {
        records: vec![record(100, Some("app"), vec![])],
    };
    let (allowed, protected) = policy.partition(&vec![handle(100)], &vec![100], &table);
    assert_eq!(allowed, vec![handle(100)]);
    assert!(protected.is_empty());
    assert!(policy.check_app(Some(100), Some("app"), &table).is_none());
}

#[test]
fn unique_bus_names_are_no_owners() {
    let owners = collect_dbus_owners(&vec![
        (":1.5".to_string(), Some(5)),
        ("org.example.A".to_string(), Some(6)),
        ("org.example.B".to_string(), None),
    ]);
    assert_eq!(owners.len(), 1);
    assert_eq!(owners[&6], "org.example.A");
}

// --- Cgroups ---

#[test]
fn capabilities_follow_the_probe() {
    let caps = CgroupCapabilities::detect(&CgroupProbe {
        can_create: true,
        has_freezer: true,
        subtree_control: Some("cpu memory".to_string()),
        has_systemd: true,
    });
    assert!(caps.cpu_control);
    let none = CgroupCapabilities::detect(&CgroupProbe {
        can_create: false,
        has_freezer: false,
        subtree_control: None,
        has_systemd: false,
    });
    assert_eq!(none.tier, CgroupCapability::SignalOnly);
    assert_eq!(none.tier.name(), "SignalOnly");
    assert!(!none.freezer && !none.cpu_control);
}

#[test]
fn signal_only_makes_no_cgroup() {
    assert!(create_cgroup(CgroupCapability::SignalOnly, "/sys/fs/cgroup", "x").is_err());
    match create_cgroup(CgroupCapability::DirectWrite, "/cg", "org.x y").unwrap() {
        CgroupRequest::Directory { path } => assert_eq!(path, "/cg/app-powerd-org-x-y"),
        other => panic!("unexpected request: {other:?}"),
    }
    match create_cgroup(CgroupCapability::SystemdTransient, "/cg", "org.x y").unwrap() {
        CgroupRequest::Scope { unit, .. } => assert_eq!(unit, "app-powerd-org-x-y.scope"),
        other => panic!("unexpected request: {other:?}"),
    }
}

#[test]
fn quota_is_a_share_of_the_period() {
    assert_eq!(cpu_max_value("40%").unwrap(), "40000 100000");
    assert!(cpu_max_value("lots").is_err());
    assert_eq!(cpu_max_reset(), "max 100000");
}

#[test]
fn leftovers_are_known_by_prefix() {
    assert!(is_stale_cgroup("app-powerd-firefox"));
    assert!(!is_stale_cgroup("firefox"));
}

#[test]
fn cgroup_base_falls_back_to_the_user_slice() {
    let found = cgroup_candidates("0::/user.slice/user-1000.slice/session.scope\n");
    assert!(found
        .iter()
        .any(|p| p.starts_with("/sys/fs/cgroup/user.slice/user-1000.slice")));
    assert_eq!(
        cgroup_fallback(1000),
        "/sys/fs/cgroup/user.slice/user-1000.slice/user@1000.service"
    );
}

// --- Power ---

#[test]
fn mains_outranks_battery() {
    let supply = |kind: &str, online: Option<&str>| Supply {
        kind: kind.to_string(),
        online: online.map(|o| o.to_string()),
    };
    assert_eq!(detect_power_source(&vec![]), PowerSource::Unknown);
    assert_eq!(
        detect_power_source(&vec![supply("Battery\n", None)]),
        PowerSource::Battery
    );
    assert_eq!(
        detect_power_source(&vec![supply("Battery\n", None), supply("Mains\n", Some("1\n"))]),
        PowerSource::Ac
    );
    assert_eq!(
        detect_power_source(&vec![supply("Mains\n", Some("0\n")), supply("Battery", None)]),
        PowerSource::Battery
    );
    assert_eq!(PowerSource::Ac.name(), "ac");
}

// --- Errors ---

#[test]
fn system_errors_have_their_texts() {
    assert_eq!(
        SystemError::ProcessNotFound { pid: 3 }.message(),
        "process 3 not found"
    );
    assert_eq!(
        SystemError::ProcessGone { pid: 3 }.message(),
        "process 3 has exited"
    );
    assert_eq!(
        SystemError::CgroupOperation {
            operation: "write".to_string(),
            path: "/cg".to_string(),
            source: "denied".to_string(),
        }
        .message(),
        "cgroup write failed on /cg: denied"
    );
    assert_eq!(
        SystemError::NoCgroupCapability.message(),
        "no cgroup capability available"
    );
    assert_eq!(
        SystemError::ThrottleFailed {
            app_id: "x".to_string(),
            reason: "y".to_string()
        }
        .message(),
        "throttle failed for x: y"
    );
}
