use app_powerd_core::cli::{
    format_duration, recovery_message, render_response, request_for, sanitize_for_display,
    truncate, Command, ForcedMode, Output,
};
use app_powerd_core::ipc::protocol::{
    encode_frame, engine_silent, frame_len, lock_path, protocol_mismatch, socket_path, AppInfo,
    FrameError, IpcRequest, IpcResponse, Target, MAX_MESSAGE_SIZE, PROTOCOL_VERSION,
};
use app_powerd_core::metrics::Metrics;
use app_powerd_core::state::journal::RecoveryReport;
use app_powerd_core::state::machine::AppState;
use app_powerd_core::system::power::PowerSource;

/// Reads the target off a request in its wire form.
fn target_of(raw: &[u8]) -> Option<Target> {
    let value: serde_json::Value = serde_json::from_slice(raw).ok()?;
    Target::from_fields(
        value["pid"].as_u64().and_then(|p| u32::try_from(p).ok()),
        value["app"].as_str().map(|a| a.to_string()),
    )
}

#[test]
fn target_parse_distinguishes_pid_from_name() {
    assert!(matches!(Target::parse("1234"), Target::Pid { pid: 1234 }));
    assert!(matches!(Target::parse("Firefox"), Target::App { .. }));
}

#[test]
fn only_digits_make_a_pid() {
    assert!(matches!(Target::parse("+5"), Target::App { .. }));
    assert!(matches!(Target::parse(""), Target::App { .. }));
    assert!(matches!(Target::parse("12a"), Target::App { .. }));
    // Too large for a PID.
    assert!(matches!(Target::parse("4294967296"), Target::App { .. }));
    assert!(matches!(
        Target::parse("4294967295"),
        Target::Pid { pid: u32::MAX }
    ));
}

#[test]
fn legacy_pid_form_is_accepted() {
    let legacy = br#"{"type":"Freeze","pid":42}"#;
    assert!(matches!(target_of(legacy), Some(Target::Pid { pid: 42 })));
}

#[test]
fn pid_target_serializes_to_legacy_shape() {
    let (pid, app) = Target::pid(7).fields();
    assert_eq!(pid, Some(7));
    assert_eq!(app, None);
}

#[test]
fn pid_wins_when_both_fields_present() {
    let both = br#"{"type":"Freeze","app":"Firefox","pid":1}"#;
    assert!(matches!(target_of(both), Some(Target::Pid { pid: 1 })));
}

#[test]
fn app_target_roundtrips() {
    let (pid, app) = Target::app("Firefox".to_string()).fields();
    match Target::from_fields(pid, app) {
        Some(Target::App { app }) => assert_eq!(app, "Firefox"),
        other => panic!("unexpected target: {other:?}"),
    }
}

#[test]
fn a_request_without_fields_has_no_target() {
    assert!(target_of(br#"{"type":"Freeze"}"#).is_none());
}

#[test]
fn roundtrip_ipc_message() {
    let payload = br#"{"type":"Freeze","pid":42}"#.to_vec();
    let frame = encode_frame(&payload).unwrap();
    assert_eq!(frame_len(&frame[..4]).unwrap(), payload.len());
    assert!(matches!(
        target_of(&frame[4..]),
        Some(Target::Pid { pid: 42 })
    ));
}

#[test]
fn rejects_oversized_message() {
    // A length header claiming 100KB exceeds the limit.
    let len = (100_000u32).to_be_bytes();
    assert!(matches!(frame_len(&len), Err(FrameError::TooLarge)));
}

#[test]
fn frames_up_to_the_limit_pass() {
    let limit = MAX_MESSAGE_SIZE as u32;
    assert_eq!(frame_len(&limit.to_be_bytes()).unwrap(), limit as usize);
    assert!(frame_len(&(limit + 1).to_be_bytes()).is_err());
    let frame = encode_frame(&vec![1, 2, 3]).unwrap();
    assert_eq!(frame, vec![0, 0, 0, 3, 1, 2, 3]);
}

#[test]
fn paths_are_next_to_each_other() {
    assert_eq!(socket_path("/run/user/1000"), "/run/user/1000/app-powerd.sock");
    assert_eq!(lock_path("/run/user/1000"), "/run/user/1000/app-powerd.lock");
}

#[test]
fn canned_responses_are_errors() {
    match protocol_mismatch() {
        IpcResponse::Error { message } => assert_eq!(
            message,
            "protocol mismatch: this daemon speaks protocol v2 — the running daemon is probably \
             an older build than the CLI; restart the daemon"
        ),
        other => panic!("unexpected response: {other:?}"),
    }
    match engine_silent() {
        IpcResponse::Error { message } => assert_eq!(message, "engine did not respond"),
        other => panic!("unexpected response: {other:?}"),
    }
    assert_eq!(PROTOCOL_VERSION, 2);
}

#[test]
fn targets_are_named_by_kind() {
    assert_eq!(Target::pid(42).name(), "pid 42");
    assert_eq!(Target::app("Firefox".to_string()).name(), "app Firefox");
}

// --- Command line ---

#[test]
fn sanitize_replaces_control_characters() {
    assert_eq!(sanitize_for_display("plain title"), "plain title");
    assert_eq!(
        sanitize_for_display("evil\x1b[2K\r\ntitle"),
        "evil\u{fffd}[2K\u{fffd}\u{fffd}title"
    );
    assert_eq!(sanitize_for_display("tab\there"), "tab\u{fffd}here");
    // DEL and other C1 controls count too.
    assert_eq!(sanitize_for_display("a\x7fb\u{9b}c"), "a\u{fffd}b\u{fffd}c");
    // Non-control multibyte text is preserved verbatim.
    assert_eq!(sanitize_for_display("окно — 1"), "окно — 1");
}

#[test]
fn sanitize_preserves_character_count_for_truncate() {
    let dirty = "\x1b\x1b\x1b\x1b\x1b";
    let clean = sanitize_for_display(dirty);
    assert_eq!(clean.chars().count(), dirty.chars().count());
    assert_eq!(truncate(&clean, 4), "\u{fffd}...");
}

#[test]
fn durations_use_the_two_units_that_fit() {
    assert_eq!(format_duration(0), "0s");
    assert_eq!(format_duration(59), "59s");
    assert_eq!(format_duration(60), "1m0s");
    assert_eq!(format_duration(3599), "59m59s");
    assert_eq!(format_duration(3600), "1h00m");
    assert_eq!(format_duration(3780), "1h03m");
    assert_eq!(format_duration(3 * 3600 + 61), "3h01m");
    assert_eq!(format_duration(3600 + 59 * 60), "1h59m");
    assert_eq!(format_duration(252), "4m12s");
    assert_eq!(format_duration(8), "8s");
}

#[test]
fn truncation_counts_characters() {
    assert_eq!(truncate("окно", 4), "окно");
    assert_eq!(truncate("окошко", 5), "ок...");
    assert_eq!(truncate("abcdef", 3), "...");
}

#[test]
fn commands_become_requests() {
    assert!(matches!(request_for(&Command::List), IpcRequest::List));
    assert!(matches!(request_for(&Command::Status), IpcRequest::Status));
    assert!(matches!(request_for(&Command::Stats), IpcRequest::Stats));
    assert!(matches!(
        request_for(&Command::ReloadConfig),
        IpcRequest::ReloadConfig
    ));
    assert!(matches!(request_for(&Command::ThawAll), IpcRequest::ThawAll));
    assert!(matches!(
        request_for(&Command::Shutdown),
        IpcRequest::Shutdown
    ));
    assert!(matches!(
        request_for(&Command::Freeze { target: "12".to_string() }),
        IpcRequest::Freeze { target: Target::Pid { pid: 12 } }
    ));
    assert!(matches!(
        request_for(&Command::Thaw { target: "vlc".to_string() }),
        IpcRequest::Thaw { target: Target::App { .. } }
    ));
    assert!(matches!(
        request_for(&Command::Force { mode: ForcedMode::Auto }),
        IpcRequest::SetPowerOverride { source: None }
    ));
    assert!(matches!(
        request_for(&Command::Force { mode: ForcedMode::Battery }),
        IpcRequest::SetPowerOverride { source: Some(PowerSource::Battery) }
    ));
    assert!(matches!(
        request_for(&Command::Force { mode: ForcedMode::Ac }),
        IpcRequest::SetPowerOverride { source: Some(PowerSource::Ac) }
    ));
}

fn shown(response: IpcResponse) -> Vec<String> {
    match render_response(&response) {
        Output::Lines(lines) => lines,
        Output::Failure(line) => panic!("unexpected failure: {line}"),
    }
}

fn app(protected: Option<&str>) -> AppInfo {
    AppInfo {
        app_id: "TelegramDesktop".to_string(),
        state: AppState::Frozen,
        pids: vec![1, 2, 3],
        executable: None,
        wm_class: None,
        window_title: Some("Telegram".to_string()),
        profile: Some("messenger".to_string()),
        rule_id: Some("telegram".to_string()),
        state_since_secs: 3780,
        protected: protected.map(|p| p.to_string()),
    }
}

#[test]
fn the_list_is_a_table() {
    assert_eq!(
        shown(IpcResponse::AppList { apps: vec![] }),
        vec!["No tracked applications."]
    );
    let lines = shown(IpcResponse::AppList { apps: vec![app(None)] });
    assert_eq!(lines.len(), 3);
    assert_eq!(
        lines[0],
        format!(
            "{:<20} {:<11} {:<10} {:<12} {:<18} {:<9} TITLE",
            "APP", "STATE", "IN STATE", "PROFILE", "RULE", "PIDS"
        )
    );
    assert_eq!(lines[1], "-".repeat(92));
    assert_eq!(
        lines[2],
        format!(
            "{:<20} {:<11} {:<10} {:<12} {:<18} {:<9} {}",
            "TelegramDesktop", "FROZEN", "1h03m", "messenger", "telegram", 3, "Telegram"
        )
    );
}

#[test]
fn protected_applications_show_the_reason() {
    let lines = shown(IpcResponse::AppList {
        apps: vec![app(Some("matches deny-list"))],
    });
    assert_eq!(
        lines[2],
        format!(
            "{:<20} {:<11} {:<10} {:<12} {:<18} {:<9} {}",
            "TelegramDesktop", "PROTECTED", "1h03m", "messenger", "matches deny-list", 3, "Telegram"
        )
    );
    let lines = shown(IpcResponse::AppList {
        apps: vec![app(Some("built-in protection: built-in deny-list (zenity)"))],
    });
    assert!(lines[2].contains(" built-in protec... 3 "));
}

#[test]
fn the_status_is_spelled_out() {
    let status = |forced: Option<PowerSource>, cpu_control: bool| IpcResponse::Status {
        enabled: true,
        power_source: PowerSource::Ac,
        forced_power_source: forced,
        tracked_apps: 4,
        uptime_secs: 77,
        cgroup_mode: "SignalOnly".to_string(),
        cpu_control,
        protected_apps: 1,
        protocol_version: 2,
    };
    assert_eq!(
        shown(status(None, true)),
        vec![
            "app-powerd status:",
            "  enabled:       true",
            "  power source:  ac (auto)",
            "  cgroup mode:   SignalOnly",
            "  cpu control:   available",
            "  tracked apps:  4",
            "  protected:     1",
            "  uptime:        77s",
            "  protocol:      v2",
        ]
    );
    let lines = shown(status(Some(PowerSource::Battery), false));
    assert_eq!(lines[2], "  power source:  battery (forced; detected: ac)");
    assert_eq!(
        lines[4],
        "  cpu control:   unavailable (cpu_weight/cpu_quota are NOT applied)"
    );
}

#[test]
fn the_metrics_are_listed() {
    let mut metrics = Metrics::new();
    metrics.apps_frozen_total = 12;
    metrics.warns_suppressed_total = 9;
    let lines = shown(IpcResponse::Stats {
        metrics: metrics.snapshot(),
    });
    assert_eq!(lines.len(), 17);
    assert_eq!(lines[0], "app-powerd metrics:");
    assert_eq!(lines[1], "  apps_frozen_total:     12");
    assert_eq!(lines[4], "  apps_unthrottled_total:0");
    assert_eq!(lines[16], "  warns_suppressed:      9");
}

#[test]
fn errors_go_to_standard_error() {
    let response = IpcResponse::Error {
        message: "no".to_string(),
    };
    assert!(matches!(render_response(&response), Output::Failure(line) if line == "error: no"));
    assert_eq!(
        shown(IpcResponse::Done { message: "done".to_string() }),
        vec!["done"]
    );
}

#[test]
fn recovery_is_summed_up() {
    assert_eq!(
        recovery_message(&RecoveryReport::default()),
        "Nothing to resume: no processes are recorded as suspended."
    );
    assert_eq!(
        recovery_message(&RecoveryReport { thawed: 2, stale: 1, not_owned: 0 }),
        "Resumed 2 process(es) (1 already gone, 0 not owned by this user)."
    );
}
