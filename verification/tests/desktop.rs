use app_powerd_core::desktop::proc_info::{CachedProcessInfo, ProcessCache, Readings};
use app_powerd_core::desktop::wayland::gnome::{
    window_state, FocusTracker, WindowProperties, WindowState,
};
use app_powerd_core::desktop::wayland::kde::{
    kde_error, EventKind, EventMapper, KdeEvent, KdeWindow,
};
use app_powerd_core::desktop::wayland::wlr_toplevel::{
    find_folded, find_pid_by_app_id, ToplevelEvent, WlrState, STATE_ACTIVATED, STATE_FULLSCREEN,
};
use app_powerd_core::desktop::wayland::{WaylandBackend, WaylandInner};
use app_powerd_core::desktop::window::{Desktop, WindowInfo};
use app_powerd_core::desktop::x11::{
    check_fullscreen, first_word, get_active_window, get_window_info, parse_u32_slice, react,
    window_class, window_pid, workspace_event, ByteOrder, X11Action, X11Event, X11Properties,
};
use app_powerd_core::desktop::{detect_backend, DetectStep, FocusEvent};
use app_powerd_core::engine::suspend::TimerEvent;
use app_powerd_core::engine::EngineEvent;
use app_powerd_core::error::DesktopError;

const LE: ByteOrder = ByteOrder::Little;

fn info(exe: &str, cmdline: Option<&str>) -> CachedProcessInfo {
    CachedProcessInfo {
        exe: exe.to_string(),
        cmdline: cmdline.map(|c| c.to_string()),
    }
}

fn readings(rows: &[(u32, &str)]) -> Readings {
    rows.iter().map(|(pid, exe)| (*pid, info(exe, None))).collect()
}

// --- KDE ---

const FOCUSED: &str = r#"{
    "kind":"focused",
    "window":{
        "id":"{cb68a747-6828-4df7-9426-512dddc23b14}",
        "pid":0,
        "title":"Konsole",
        "appId":"org.kde.konsole",
        "resourceClass":"org.kde.konsole",
        "fullscreen":false
    }
}"#;

fn kde_event(json: &str) -> KdeEvent {
    let value: serde_json::Value = serde_json::from_str(json).unwrap();
    let kind = match value["kind"].as_str().unwrap() {
        "focused" => EventKind::Focused,
        "closed" => EventKind::Closed,
        other => panic!("unexpected kind: {other}"),
    };
    let w = &value["window"];
    let text = |key: &str| w[key].as_str().unwrap().to_string();
    KdeEvent {
        kind,
        window: Some(KdeWindow {
            id: text("id"),
            pid: w["pid"].as_i64().unwrap() as i32,
            title: text("title"),
            app_id: text("appId"),
            resource_class: text("resourceClass"),
            fullscreen: w["fullscreen"].as_bool().unwrap(),
        }),
    }
}

#[test]
fn focused_and_closed_events_share_window_id() {
    let mut mapper = EventMapper::new();

    let Some(FocusEvent::FocusChanged(window)) = mapper.map(kde_event(FOCUSED), &vec![]) else {
        panic!("expected focus event");
    };
    assert_eq!(window.window_id, 1);
    assert_eq!(window.app_id.as_deref(), Some("org.kde.konsole"));
    assert_eq!(window.wm_class.as_deref(), Some("org.kde.konsole"));

    let closed = FOCUSED.replace("\"focused\"", "\"closed\"");
    assert!(matches!(
        mapper.map(kde_event(&closed), &vec![]),
        Some(FocusEvent::WindowClosed { window_id: 1 })
    ));
}

#[test]
fn ignores_closed_window_that_was_never_focused() {
    let mut mapper = EventMapper::new();
    let closed = FOCUSED.replace("\"focused\"", "\"closed\"");

    assert!(mapper.map(kde_event(&closed), &vec![]).is_none());
}

#[test]
fn accepts_window_without_pid() {
    let mut mapper = EventMapper::new();
    let focused = FOCUSED.replace("\"pid\":0", "\"pid\":-1");

    let Some(FocusEvent::FocusChanged(window)) = mapper.map(kde_event(&focused), &vec![]) else {
        panic!("expected focus event");
    };
    assert_eq!(window.pid, None);
}

#[test]
fn kde_windows_keep_their_ids_and_processes() {
    let mut mapper = EventMapper::new();
    assert!(mapper.has_ids());
    let with_pid = FOCUSED.replace("\"pid\":0", "\"pid\":77");
    let other = with_pid.replace("cb68a747", "00000000");
    let Some(FocusEvent::FocusChanged(first)) =
        mapper.map(kde_event(&with_pid), &readings(&[(77, "konsole")]))
    else {
        panic!("expected focus event");
    };
    assert_eq!(first.executable.as_deref(), Some("konsole"));
    assert!(mapper.knows(77));
    let Some(FocusEvent::FocusChanged(second)) = mapper.map(kde_event(&other), &vec![]) else {
        panic!("expected focus event");
    };
    // A new ID, and what was read of the process the first time.
    assert_eq!(second.window_id, 2);
    assert_eq!(second.executable.as_deref(), Some("konsole"));
    let Some(FocusEvent::FocusChanged(again)) = mapper.map(kde_event(&with_pid), &vec![]) else {
        panic!("expected focus event");
    };
    assert_eq!(again.window_id, 1);
}

#[test]
fn kde_events_without_a_window_mean_nothing() {
    let mut mapper = EventMapper::new();
    let event = KdeEvent {
        kind: EventKind::Focused,
        window: None,
    };
    assert!(mapper.map(event, &vec![]).is_none());
}

#[test]
fn kde_window_without_app_id_goes_by_its_class() {
    let w = KdeWindow {
        id: "x".to_string(),
        pid: 0,
        title: "T".to_string(),
        app_id: String::new(),
        resource_class: "xterm".to_string(),
        fullscreen: true,
    };
    let mut cache = ProcessCache::new();
    let shown = w.to_info(9, &mut cache, &vec![]);
    assert_eq!(shown.app_id.as_deref(), Some("xterm"));
    assert!(shown.is_fullscreen);
    assert_eq!(shown.window_id, 9);
}

#[test]
fn kde_errors_name_what_was_tried() {
    let e = kde_error("load KWin script", "refused");
    assert_eq!(
        e.message(),
        "wayland connection failed: KDE load KWin script: refused"
    );
}

// --- GNOME ---

fn state(app: &str, focused: bool, fullscreen: bool, pid: u32) -> WindowState {
    WindowState {
        title: format!("{app} window"),
        app_id: app.to_string(),
        pid,
        is_focused: focused,
        is_fullscreen: fullscreen,
    }
}

#[test]
fn gnome_properties_have_defaults() {
    let s = window_state(WindowProperties {
        title: None,
        app_id: None,
        wm_class: Some("XTerm".to_string()),
        pid: None,
        focus: None,
        fullscreen: Some(true),
    });
    assert_eq!(s.title, "");
    assert_eq!(s.app_id, "XTerm");
    assert_eq!(s.pid, 0);
    assert!(!s.is_focused);
    assert!(s.is_fullscreen);
}

#[test]
fn gnome_reports_focus_changes_and_closed_windows() {
    let mut tracker = FocusTracker::new();
    let events = tracker.observe(
        &vec![(1, state("a", true, false, 10)), (2, state("b", false, false, 0))],
        &readings(&[(10, "a-bin")]),
    );
    assert_eq!(events.len(), 1);
    let FocusEvent::FocusChanged(w) = &events[0] else {
        panic!("expected focus event");
    };
    assert_eq!(w.window_id, 1);
    assert_eq!(w.pid, Some(10));
    assert_eq!(w.executable.as_deref(), Some("a-bin"));
    assert!(tracker.knows(10));

    // Nothing changed.
    let events = tracker.observe(
        &vec![(1, state("a", true, false, 10)), (2, state("b", false, false, 0))],
        &vec![],
    );
    assert!(events.is_empty());

    // Fullscreen counts as a change of focus.
    let events = tracker.observe(
        &vec![(1, state("a", true, true, 10)), (2, state("b", false, false, 0))],
        &vec![],
    );
    assert!(matches!(&events[..], [FocusEvent::FocusChanged(w)] if w.is_fullscreen));

    // Focus moves, and the first window is gone.
    let events = tracker.observe(&vec![(2, state("b", true, false, 0))], &vec![]);
    assert!(matches!(
        &events[..],
        [FocusEvent::FocusChanged(w), FocusEvent::WindowClosed { window_id: 1 }]
            if w.window_id == 2 && w.pid.is_none()
    ));
}

// --- wlroots ---

fn words(values: &[u32]) -> Vec<u8> {
    values.iter().flat_map(|v| v.to_le_bytes()).collect()
}

fn activate(wlr: &mut WlrState, handle: u32, app: &str, states: &[u32], procs: &Readings) {
    wlr.handle_event(handle, ToplevelEvent::Title(format!("{app}!")), procs, LE);
    wlr.handle_event(handle, ToplevelEvent::AppId(app.to_string()), procs, LE);
    wlr.handle_event(handle, ToplevelEvent::State(words(states)), procs, LE);
    wlr.handle_event(handle, ToplevelEvent::Done, procs, LE);
}

#[test]
fn wlr_reports_an_activated_toplevel_once() {
    let mut wlr = WlrState::new();
    let procs = readings(&[(5, "other"), (6, "FOOT"), (7, "foot")]);
    activate(&mut wlr, 40, "foot", &[STATE_ACTIVATED], &procs);
    let events = wlr.take_events();
    let [FocusEvent::FocusChanged(w)] = &events[..] else {
        panic!("expected one focus event, got {events:?}");
    };
    assert_eq!(w.window_id, 1);
    assert_eq!(w.title.as_deref(), Some("foot!"));
    // The first process whose name matches without regard to case.
    assert_eq!(w.pid, Some(6));
    assert_eq!(w.executable.as_deref(), Some("FOOT"));

    // Still active: nothing to report.
    activate(&mut wlr, 40, "foot", &[STATE_ACTIVATED], &procs);
    assert!(wlr.take_events().is_empty());

    // Fullscreen is a change.
    activate(&mut wlr, 40, "foot", &[STATE_ACTIVATED, STATE_FULLSCREEN], &vec![]);
    let events = wlr.take_events();
    assert!(matches!(
        &events[..],
        [FocusEvent::FocusChanged(w)] if w.is_fullscreen && w.pid == Some(6)
    ));
}

#[test]
fn wlr_applies_updates_only_when_done() {
    let mut wlr = WlrState::new();
    wlr.handle_event(1, ToplevelEvent::AppId("a".to_string()), &vec![], LE);
    wlr.handle_event(1, ToplevelEvent::State(words(&[STATE_ACTIVATED])), &vec![], LE);
    assert!(wlr.wants_scan(1));
    assert!(wlr.take_events().is_empty());
    wlr.handle_event(1, ToplevelEvent::Done, &vec![], LE);
    assert!(!wlr.wants_scan(1));
    assert_eq!(wlr.take_events().len(), 1);
}

#[test]
fn wlr_closed_toplevels_give_up_their_id() {
    let mut wlr = WlrState::new();
    assert!(wlr.has_ids());
    activate(&mut wlr, 9, "a", &[STATE_ACTIVATED], &readings(&[(5, "a")]));
    wlr.take_events();
    wlr.handle_event(9, ToplevelEvent::Closed, &vec![], LE);
    let events = wlr.take_events();
    assert!(matches!(&events[..], [FocusEvent::WindowClosed { window_id: 1 }]));
    // The same protocol object is another window now, and its process is looked
    // up anew.
    activate(&mut wlr, 9, "a", &[STATE_ACTIVATED], &vec![]);
    let events = wlr.take_events();
    assert!(matches!(
        &events[..],
        [FocusEvent::FocusChanged(w)] if w.window_id == 2 && w.pid.is_none()
    ));
}

#[test]
fn processes_are_found_without_regard_to_case() {
    let procs = readings(&[(3, "Straße"), (4, "ЖУК")]);
    assert_eq!(find_pid_by_app_id("жук", &procs), Some(1));
    assert_eq!(find_pid_by_app_id("STRASSE", &procs), None);
    let names = vec![(1, "a".to_string()), (2, "b".to_string()), (3, "b".to_string())];
    assert_eq!(find_folded("b", &names), Some(1));
    assert_eq!(find_folded("c", &names), None);
}

// --- X11 ---

#[test]
fn words_follow_the_byte_order() {
    let bytes = vec![1, 0, 0, 0, 0, 0, 1, 2, 9];
    assert_eq!(parse_u32_slice(&bytes, ByteOrder::Little), vec![1, 0x0201_0000]);
    assert_eq!(parse_u32_slice(&bytes, ByteOrder::Big), vec![0x0100_0000, 0x0000_0102]);
    assert_eq!(first_word(&vec![1, 2, 3], LE), None);
}

#[test]
fn the_root_window_is_not_active() {
    assert_eq!(get_active_window(&words(&[77]), 1, LE), Some(77));
    assert_eq!(get_active_window(&words(&[0]), 1, LE), None);
    assert_eq!(get_active_window(&words(&[1]), 1, LE), None);
    assert_eq!(get_active_window(&vec![], 1, LE), None);
}

#[test]
fn x11_windows_are_described_by_their_properties() {
    let props = X11Properties {
        pid: words(&[42]),
        class: "navigator\0Firefox\0".to_string(),
        name: "Mozilla".to_string(),
        state: words(&[5, 6]),
        desktop: words(&[u32::MAX]),
    };
    let w = get_window_info(
        7,
        &props,
        Some("firefox".to_string()),
        Some("/usr/bin/firefox".to_string()),
        6,
        LE,
    );
    assert_eq!(w.window_id, 7);
    assert_eq!(w.pid, Some(42));
    assert_eq!(w.wm_class.as_deref(), Some("Firefox"));
    assert_eq!(w.title.as_deref(), Some("Mozilla"));
    assert_eq!(w.executable.as_deref(), Some("firefox"));
    assert!(w.is_fullscreen);
    assert_eq!(w.desktop, Some(Desktop::All));
}

#[test]
fn unset_x11_properties_leave_fields_out() {
    let props = X11Properties {
        pid: words(&[0]),
        class: "lonely".to_string(),
        name: String::new(),
        state: vec![],
        desktop: vec![],
    };
    let w = get_window_info(7, &props, Some("x".to_string()), None, 6, LE);
    assert_eq!(w.pid, None);
    assert_eq!(w.executable, None);
    assert_eq!(w.wm_class, None);
    assert_eq!(w.title, None);
    assert!(!w.is_fullscreen);
    assert_eq!(w.desktop, None);
    assert_eq!(window_pid(&words(&[9]), LE), Some(9));
    assert_eq!(window_class("a\0b\0").as_deref(), Some("b"));
    assert!(!check_fullscreen(&words(&[1, 2]), 3, LE));
}

#[test]
fn x11_events_lead_to_actions() {
    let (active, desktop) = (100, 200);
    assert!(matches!(
        react(X11Event::PropertyChanged { atom: 100 }, active, desktop),
        X11Action::ReadActiveWindow
    ));
    assert!(matches!(
        react(X11Event::PropertyChanged { atom: 200 }, active, desktop),
        X11Action::ReadCurrentDesktop
    ));
    assert!(matches!(
        react(X11Event::PropertyChanged { atom: 300 }, active, desktop),
        X11Action::Ignore
    ));
    assert!(matches!(
        react(X11Event::Destroyed { window: 4 }, active, desktop),
        X11Action::Report(FocusEvent::WindowClosed { window_id: 4 })
    ));
    assert!(matches!(
        react(X11Event::ClientMessage { atom: 100, window: 5 }, active, desktop),
        X11Action::Report(FocusEvent::ActivationRequested { window_id: 5 })
    ));
    assert!(matches!(
        react(X11Event::ClientMessage { atom: 1, window: 5 }, active, desktop),
        X11Action::Ignore
    ));
    assert!(matches!(react(X11Event::Other, active, desktop), X11Action::Ignore));
    assert!(matches!(
        workspace_event(&words(&[3]), LE),
        Some(FocusEvent::WorkspaceChanged { desktop: 3 })
    ));
    assert!(workspace_event(&vec![], LE).is_none());
}

// --- Choosing a backend ---

#[test]
fn wayland_comes_before_x11() {
    assert!(matches!(detect_backend(true, false, true), DetectStep::Wayland));
    assert!(matches!(detect_backend(true, true, true), DetectStep::X11));
    assert!(matches!(detect_backend(false, false, true), DetectStep::X11));
    assert!(matches!(
        detect_backend(false, false, false),
        DetectStep::Fail(DesktopError::NoDisplayServer)
    ));
    assert!(matches!(
        detect_backend(true, true, false),
        DetectStep::Fail(DesktopError::NoDisplayServer)
    ));
}

#[test]
fn wayland_protocols_are_tried_in_order() {
    let pick = |a, b, c| WaylandBackend::new(a, b, c).map(|w| w.inner);
    assert!(matches!(pick(true, true, true), Ok(WaylandInner::Wlr)));
    assert!(matches!(pick(false, true, true), Ok(WaylandInner::Kde)));
    assert!(matches!(pick(false, false, true), Ok(WaylandInner::Gnome)));
    let Err(e) = pick(false, false, false) else {
        panic!("expected an error");
    };
    assert_eq!(
        e.message(),
        "wayland connection failed: no supported Wayland compositor protocol found"
    );
}

#[test]
fn desktop_errors_have_their_texts() {
    assert!(DesktopError::NoDisplayServer
        .message()
        .starts_with("no supported display server detected (WAYLAND_DISPLAY and DISPLAY are unset"));
    assert_eq!(
        DesktopError::X11Connection("x".to_string()).message(),
        "x11 connection failed: x"
    );
    assert_eq!(DesktopError::Disconnected.message(), "backend disconnected");
}

#[test]
fn focus_and_timer_events_become_engine_events() {
    assert!(matches!(
        EngineEvent::from(FocusEvent::FocusChanged(WindowInfo::new(3))),
        EngineEvent::FocusChanged(w) if w.window_id == 3
    ));
    assert!(matches!(
        EngineEvent::from(FocusEvent::WorkspaceChanged { desktop: 2 }),
        EngineEvent::WorkspaceChanged { desktop: 2 }
    ));
    assert!(matches!(
        EngineEvent::from(TimerEvent::Suspend { key: "a".to_string() }),
        EngineEvent::SuspendTimerFired { key } if key == "a"
    ));
    assert!(matches!(
        EngineEvent::from(TimerEvent::MaintenanceSleep { key: "a".to_string() }),
        EngineEvent::MaintenanceSleep { .. }
    ));
}
