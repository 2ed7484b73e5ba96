//! Safety checks before an application is suspended.
use vstd::prelude::*;

use crate::config::{GuardAction, GuardsConfig};
use crate::guards::audio::AudioActivity;
use crate::guards::input::{has_recent_input, recent_input};
use crate::time::Nanos;

pub mod audio;
pub mod camera;
pub mod input;

verus! {

/// Reason a guard blocked an action.
#[derive(Clone, Copy, Debug, PartialEq, Eq, Structural)]
pub enum GuardBlockReason {
    AudioActive,
    MicActive,
    CameraActive,
    Fullscreen,
    RecentInput,
}

impl GuardBlockReason {
    /// The name shown for the reason.
    pub open spec fn text(self) -> Seq<char> {
        match self {
            GuardBlockReason::AudioActive => "audio_active"@,
            GuardBlockReason::MicActive => "mic_active"@,
            GuardBlockReason::CameraActive => "camera_active"@,
            GuardBlockReason::Fullscreen => "fullscreen"@,
            GuardBlockReason::RecentInput => "recent_input"@,
        }
    }

    /// Renders the reason.
    pub fn name(&self) -> (r: &'static str)
        ensures
            r@ == self.text(),
    {
        match self {
            GuardBlockReason::AudioActive => "audio_active",
            GuardBlockReason::MicActive => "mic_active",
            GuardBlockReason::CameraActive => "camera_active",
            GuardBlockReason::Fullscreen => "fullscreen",
            GuardBlockReason::RecentInput => "recent_input",
        }
    }
}

/// Result of a guard check.
#[derive(Clone, Copy, Debug, PartialEq, Eq, Structural)]
pub enum GuardResult {
    /// All checks passed, action is allowed.
    Allow,
    /// A guard blocked the action.
    Block(GuardBlockReason),
}

/// What has to be observed before the guards can be checked.
#[derive(Clone, Copy, Debug, PartialEq, Eq, Structural)]
pub struct GuardNeeds {
    pub audio: bool,
    pub camera: bool,
    pub idle: bool,
}

/// What was observed of an application.
#[derive(Clone, Copy, Debug, PartialEq, Eq, Structural)]
pub struct GuardObservation {
    pub audio: AudioActivity,
    pub camera: bool,
    /// Time since the last user input, where it is known.
    pub idle: Option<Nanos>,
}

/// Decides what has to be observed: only what a guard is set to check.
pub fn guard_needs(config: &GuardsConfig) -> (r: GuardNeeds)
    ensures
        r.audio == (config.audio_active is Check || config.mic_active is Check),
        r.camera == (config.camera_active is Check),
        r.idle == (config.input_idle is Some),
{
    GuardNeeds {
        audio: config.audio_active == GuardAction::Check || config.mic_active
            == GuardAction::Check,
        camera: config.camera_active == GuardAction::Check,
        idle: config.input_idle.is_some(),
    }
}

/// Whether one guard, named by its reason, blocks.
pub open spec fn blocks(
    config: GuardsConfig,
    fullscreen: bool,
    seen: GuardObservation,
    reason: GuardBlockReason,
) -> bool {
    match reason {
        GuardBlockReason::AudioActive => config.audio_active is Check && seen.audio.playing,
        GuardBlockReason::MicActive => config.mic_active is Check && seen.audio.mic_active,
        GuardBlockReason::CameraActive => config.camera_active is Check && seen.camera,
        GuardBlockReason::Fullscreen => config.fullscreen is Check && fullscreen,
        GuardBlockReason::RecentInput => config.input_idle is Some && recent_input(
            seen.idle,
            config.input_idle->0,
        ),
    }
}

/// The verdict of the guards: the first that blocks is named.
pub open spec fn guard_verdict(
    config: GuardsConfig,
    fullscreen: bool,
    seen: GuardObservation,
) -> GuardResult {
    if blocks(config, fullscreen, seen, GuardBlockReason::AudioActive) {
        GuardResult::Block(GuardBlockReason::AudioActive)
    } else if blocks(config, fullscreen, seen, GuardBlockReason::MicActive) {
        GuardResult::Block(GuardBlockReason::MicActive)
    } else if blocks(config, fullscreen, seen, GuardBlockReason::CameraActive) {
        GuardResult::Block(GuardBlockReason::CameraActive)
    } else if blocks(config, fullscreen, seen, GuardBlockReason::Fullscreen) {
        GuardResult::Block(GuardBlockReason::Fullscreen)
    } else if blocks(config, fullscreen, seen, GuardBlockReason::RecentInput) {
        GuardResult::Block(GuardBlockReason::RecentInput)
    } else {
        GuardResult::Allow
    }
}

/// Check all guards for an app. Returns Block if any guard prevents the action.
pub fn check_guards(config: &GuardsConfig, is_fullscreen: bool, seen: &GuardObservation) -> (r:
    GuardResult)
    ensures
        r == guard_verdict(*config, is_fullscreen, *seen),
{
    if config.audio_active == GuardAction::Check && seen.audio.playing {
        return GuardResult::Block(GuardBlockReason::AudioActive);
    }
    if config.mic_active == GuardAction::Check && seen.audio.mic_active {
        return GuardResult::Block(GuardBlockReason::MicActive);
    }
    if config.camera_active == GuardAction::Check && seen.camera {
        return GuardResult::Block(GuardBlockReason::CameraActive);
    }
    if config.fullscreen == GuardAction::Check && is_fullscreen {
        return GuardResult::Block(GuardBlockReason::Fullscreen);
    }
    if let Some(threshold) = config.input_idle {
        if has_recent_input(seen.idle, threshold) {
            return GuardResult::Block(GuardBlockReason::RecentInput);
        }
    }
    GuardResult::Allow
}

/// Suspending is allowed exactly where no guard blocks.
pub proof fn allowed_iff_nothing_blocks(
    config: GuardsConfig,
    fullscreen: bool,
    seen: GuardObservation,
)
    ensures
        guard_verdict(config, fullscreen, seen) is Allow <==> forall|reason: GuardBlockReason|
            !blocks(config, fullscreen, seen, reason),
{
    if guard_verdict(config, fullscreen, seen) is Allow {
        assert forall|reason: GuardBlockReason| !blocks(config, fullscreen, seen, reason) by {
            match reason {
                GuardBlockReason::AudioActive => {},
                GuardBlockReason::MicActive => {},
                GuardBlockReason::CameraActive => {},
                GuardBlockReason::Fullscreen => {},
                GuardBlockReason::RecentInput => {},
            }
        }
    }
}

/// A guard that is set to ignore never blocks, whatever was observed.
pub proof fn ignored_guards_never_block(
    config: GuardsConfig,
    fullscreen: bool,
    seen: GuardObservation,
)
    requires
        config.audio_active is Ignore,
        config.mic_active is Ignore,
        config.camera_active is Ignore,
        config.fullscreen is Ignore,
        config.input_idle is None,
    ensures
        guard_verdict(config, fullscreen, seen) is Allow,
{
}

/// Each guard that is to be checked blocks by itself: sound that is played or recorded,
/// a camera in use, a fullscreen window, and input that is not long enough ago.
pub proof fn each_guard_blocks_by_itself(
    config: GuardsConfig,
    fullscreen: bool,
    seen: GuardObservation,
)
    ensures
        config.audio_active is Check && seen.audio.playing ==> guard_verdict(
            config,
            fullscreen,
            seen,
        ) is Block,
        config.mic_active is Check && seen.audio.mic_active ==> guard_verdict(
            config,
            fullscreen,
            seen,
        ) is Block,
        config.camera_active is Check && seen.camera ==> guard_verdict(
            config,
            fullscreen,
            seen,
        ) is Block,
        config.fullscreen is Check && fullscreen ==> guard_verdict(
            config,
            fullscreen,
            seen,
        ) is Block,
        config.input_idle matches Some(least) ==> (seen.idle matches Some(idle) ==> (idle < least
            ==> guard_verdict(config, fullscreen, seen) is Block)),
{
}

/// A guard blocks for no other reason: where it is not to be checked, or nothing was
/// seen of what it looks for, it does not; and where a reason is given, it holds.
pub proof fn a_block_has_its_reason(
    config: GuardsConfig,
    fullscreen: bool,
    seen: GuardObservation,
)
    ensures
        guard_verdict(config, fullscreen, seen) matches GuardResult::Block(reason) ==> {
            &&& reason is AudioActive ==> config.audio_active is Check && seen.audio.playing
            &&& reason is MicActive ==> config.mic_active is Check && seen.audio.mic_active
            &&& reason is CameraActive ==> config.camera_active is Check && seen.camera
            &&& reason is Fullscreen ==> config.fullscreen is Check && fullscreen
            &&& reason is RecentInput ==> config.input_idle is Some && seen.idle is Some
                && seen.idle->0 < config.input_idle->0
        },
        config.audio_active is Check && seen.audio.playing ==> guard_verdict(
            config,
            fullscreen,
            seen,
        ) == GuardResult::Block(GuardBlockReason::AudioActive),
{
}

} // verus!
