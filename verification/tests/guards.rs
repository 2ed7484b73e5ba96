use app_powerd_core::config::{GuardAction, GuardsConfig};
use app_powerd_core::guards::audio::{check_audio_activity, AudioActivity, PidValue, PwNode};
use app_powerd_core::guards::camera::{check_camera_sync, has_video_fd};
use app_powerd_core::guards::input::{get_idle_time, has_recent_input};
use app_powerd_core::guards::{
    check_guards, guard_needs, GuardBlockReason, GuardObservation, GuardResult,
};

const SECOND: u128 = 1_000_000_000;

fn quiet() -> GuardObservation {
    GuardObservation {
        audio: AudioActivity {
            playing: false,
            mic_active: false,
        },
        camera: false,
        idle: None,
    }
}

fn node(class: &str, pid: PidValue) -> PwNode {
    PwNode {
        media_class: Some(class.to_string()),
        app_pid: Some(pid),
    }
}

#[test]
fn each_guard_blocks_with_its_reason() {
    let config = GuardsConfig {
        input_idle: Some(10 * SECOND),
        ..GuardsConfig::default()
    };
    let check = |fullscreen: bool, seen: GuardObservation| check_guards(&config, fullscreen, &seen);
    assert_eq!(check(false, quiet()), GuardResult::Allow);
    assert_eq!(
        check(true, quiet()),
        GuardResult::Block(GuardBlockReason::Fullscreen)
    );
    let playing = AudioActivity { playing: true, mic_active: false };
    assert_eq!(
        check(false, GuardObservation { audio: playing, ..quiet() }),
        GuardResult::Block(GuardBlockReason::AudioActive)
    );
    let recording = AudioActivity { playing: false, mic_active: true };
    assert_eq!(
        check(false, GuardObservation { audio: recording, ..quiet() }),
        GuardResult::Block(GuardBlockReason::MicActive)
    );
    assert_eq!(
        check(false, GuardObservation { camera: true, ..quiet() }),
        GuardResult::Block(GuardBlockReason::CameraActive)
    );
    assert_eq!(
        check(false, GuardObservation { idle: Some(SECOND), ..quiet() }),
        GuardResult::Block(GuardBlockReason::RecentInput)
    );
    assert_eq!(
        check(false, GuardObservation { idle: Some(11 * SECOND), ..quiet() }),
        GuardResult::Allow
    );
}

#[test]
fn ignored_guards_do_not_block() {
    let config = GuardsConfig {
        audio_active: GuardAction::Ignore,
        mic_active: GuardAction::Ignore,
        camera_active: GuardAction::Ignore,
        fullscreen: GuardAction::Ignore,
        input_idle: None,
    };
    let busy = GuardObservation {
        audio: AudioActivity { playing: true, mic_active: true },
        camera: true,
        idle: Some(0),
    };
    assert_eq!(check_guards(&config, true, &busy), GuardResult::Allow);
    let needs = guard_needs(&config);
    assert!(!needs.audio && !needs.camera && !needs.idle);
}

#[test]
fn audio_streams_count_for_the_processes_that_own_them() {
    let nodes = vec![
        node("Stream/Output/Audio", PidValue::Number(10)),
        node("Stream/Input/Audio", PidValue::Text("20".to_string())),
        node("Audio/Sink", PidValue::Number(30)),
    ];
    let heard = check_audio_activity(&nodes, &vec![10]);
    assert!(heard.playing && !heard.mic_active);
    let heard = check_audio_activity(&nodes, &vec![20]);
    assert!(!heard.playing && heard.mic_active);
    let heard = check_audio_activity(&nodes, &vec![30, 40]);
    assert!(!heard.playing && !heard.mic_active);
}

#[test]
fn pids_come_as_numbers_or_texts() {
    assert_eq!(PidValue::Number(7).as_u32(), Some(7));
    assert_eq!(PidValue::Text("7".to_string()).as_u32(), Some(7));
    assert_eq!(PidValue::Number(u64::MAX).as_u32(), None);
    assert_eq!(PidValue::Text("x".to_string()).as_u32(), None);
}

#[test]
fn an_open_video_device_is_a_camera() {
    assert!(has_video_fd(&vec!["/dev/null".to_string(), "/dev/video0".to_string()]));
    assert!(!has_video_fd(&vec!["/dev/null".to_string()]));
    assert!(check_camera_sync(&vec![vec![], vec!["/dev/video1".to_string()]]));
    assert!(!check_camera_sync(&vec![vec![]]));
}

#[test]
fn idle_time_is_read_in_milliseconds() {
    assert_eq!(get_idle_time(Some(1500)), Some(1_500_000_000));
    assert_eq!(get_idle_time(None), None);
    assert!(has_recent_input(Some(SECOND), 2 * SECOND));
    assert!(!has_recent_input(Some(2 * SECOND), 2 * SECOND));
    assert!(!has_recent_input(None, 2 * SECOND));
}

#[test]
fn reasons_are_named() {
    assert_eq!(GuardBlockReason::AudioActive.name(), "audio_active");
    assert_eq!(GuardBlockReason::CameraActive.name(), "camera_active");
}
