//! The power state of one application and how it changes.
use vstd::prelude::*;

verus! {

/// Application power state.
#[derive(Clone, Copy, Debug, PartialEq, Eq, Structural)]
pub enum AppState {
    /// Window has focus or was recently focused.
    Active,
    /// Window lost focus, waiting for the suspend timer.
    Background,
    /// CPU throttled.
    Throttled,
    /// Frozen.
    Frozen,
}

/// Action to take on a state transition.
#[derive(Clone, Copy, Debug, PartialEq, Eq, Structural)]
pub enum TransitionAction {
    /// Start the suspend timer.
    StartSuspendTimer,
    /// Cancel the suspend timer (focus regained).
    CancelSuspendTimer,
    /// Apply the throttle policy.
    ApplyThrottle,
    /// Freeze the application.
    ApplyFreeze,
    /// Remove the throttle policy.
    RemoveThrottle,
    /// Thaw the application.
    Thaw,
    /// No action needed.
    NoOp,
}

/// How a background application is suspended.
#[derive(Clone, Copy, Debug, PartialEq, Eq, Structural)]
pub enum SuspendMode {
    /// Freeze via cgroup freezer or SIGSTOP.
    Freeze,
    /// Throttle CPU via cgroup or nice.
    Throttle,
}

/// What losing focus does.
pub open spec fn focus_lost(s: AppState) -> (AppState, TransitionAction) {
    if s is Active {
        (AppState::Background, TransitionAction::StartSuspendTimer)
    } else {
        (s, TransitionAction::NoOp)
    }
}

/// What gaining focus does.
pub open spec fn focus_gained(s: AppState) -> (AppState, TransitionAction) {
    (
        AppState::Active,
        match s {
            AppState::Background => TransitionAction::CancelSuspendTimer,
            AppState::Throttled => TransitionAction::RemoveThrottle,
            AppState::Frozen => TransitionAction::Thaw,
            AppState::Active => TransitionAction::NoOp,
        },
    )
}

/// What the suspend timer does.
pub open spec fn suspend_due(s: AppState, mode: SuspendMode) -> (AppState, TransitionAction) {
    if s is Background {
        match mode {
            SuspendMode::Freeze => (AppState::Frozen, TransitionAction::ApplyFreeze),
            SuspendMode::Throttle => (AppState::Throttled, TransitionAction::ApplyThrottle),
        }
    } else {
        (s, TransitionAction::NoOp)
    }
}

impl TransitionAction {
    /// Whether the action belongs to active power management.
    pub open spec fn managed(self) -> bool {
        self is StartSuspendTimer || self is ApplyThrottle || self is ApplyFreeze
    }

    /// Whether this action requires active power management to be enabled.
    pub fn requires_management(&self) -> (r: bool)
        ensures
            r == self.managed(),
    {
        matches!(
            self,
            TransitionAction::StartSuspendTimer
                | TransitionAction::ApplyThrottle
                | TransitionAction::ApplyFreeze
        )
    }
}

impl AppState {
    /// The name shown for the state.
    pub open spec fn text(self) -> Seq<char> {
        match self {
            AppState::Active => "ACTIVE"@,
            AppState::Background => "BACKGROUND"@,
            AppState::Throttled => "THROTTLED"@,
            AppState::Frozen => "FROZEN"@,
        }
    }

    /// Renders the state.
    pub fn name(&self) -> (r: &'static str)
        ensures
            r@ == self.text(),
    {
        match self {
            AppState::Active => "ACTIVE",
            AppState::Background => "BACKGROUND",
            AppState::Throttled => "THROTTLED",
            AppState::Frozen => "FROZEN",
        }
    }

    /// Compute the transition when focus is lost.
    pub fn on_focus_lost(self) -> (r: (AppState, TransitionAction))
        ensures
            r == focus_lost(self),
    {
        match self {
            AppState::Active => (AppState::Background, TransitionAction::StartSuspendTimer),
            other => (other, TransitionAction::NoOp),
        }
    }

    /// Compute the transition when focus is gained.
    pub fn on_focus_gained(self) -> (r: (AppState, TransitionAction))
        ensures
            r == focus_gained(self),
    {
        match self {
            AppState::Background => (AppState::Active, TransitionAction::CancelSuspendTimer),
            AppState::Throttled => (AppState::Active, TransitionAction::RemoveThrottle),
            AppState::Frozen => (AppState::Active, TransitionAction::Thaw),
            AppState::Active => (AppState::Active, TransitionAction::NoOp),
        }
    }

    /// Compute the transition when the suspend timer fires.
    pub fn on_suspend_timer(self, mode: SuspendMode) -> (r: (AppState, TransitionAction))
        ensures
            r == suspend_due(self, mode),
    {
        match self {
            AppState::Background => match mode {
                SuspendMode::Freeze => (AppState::Frozen, TransitionAction::ApplyFreeze),
                SuspendMode::Throttle => (AppState::Throttled, TransitionAction::ApplyThrottle),
            },
            other => (other, TransitionAction::NoOp),
        }
    }
}

/// An application reaches a suspended state only from the background, and only
/// through the suspend timer.
pub proof fn only_background_suspends(s: AppState, mode: SuspendMode)
    ensures
        focus_lost(s).0 is Frozen || focus_lost(s).0 is Throttled ==> focus_lost(s).0 == s,
        focus_gained(s).0 is Active,
        suspend_due(s, mode).0 != s ==> s is Background,
{
}

/// No transition without an action changes the state, and focus always leads to
/// `Active`, with the action that undoes the suspension it found.
pub proof fn transitions_are_consistent(s: AppState, mode: SuspendMode)
    ensures
        focus_lost(s).1 is NoOp ==> focus_lost(s).0 == s,
        focus_gained(s).1 is NoOp ==> focus_gained(s).0 == s,
        suspend_due(s, mode).1 is NoOp ==> suspend_due(s, mode).0 == s,
        focus_gained(s).1 is Thaw <==> s is Frozen,
        focus_gained(s).1 is RemoveThrottle <==> s is Throttled,
        !focus_gained(s).1.managed(),
{
}

/// Losing focus, being suspended and gaining focus again ends where it began,
/// and undoes what was applied.
pub proof fn suspend_and_resume(mode: SuspendMode)
    ensures
        ({
            let background = focus_lost(AppState::Active).0;
            let suspended = suspend_due(background, mode);
            let resumed = focus_gained(suspended.0);
            &&& resumed.0 is Active
            &&& suspended.1 is ApplyFreeze ==> resumed.1 is Thaw
            &&& suspended.1 is ApplyThrottle ==> resumed.1 is RemoveThrottle
        }),
{
}

/// Losing the focus sends an active application to the background and starts its
/// timer; gaining it makes any application active, and cancels the timer of one in the
/// background; a timer suspends one in the background as it is told to.
pub proof fn transitions_do_what_they_are_for(s: AppState)
    ensures
        focus_lost(AppState::Active).0 is Background,
        focus_lost(AppState::Active).1 is StartSuspendTimer,
        !(s is Active) ==> focus_lost(s).0 == s && focus_lost(s).1 is NoOp,
        focus_gained(s).0 is Active,
        focus_gained(s).1 is CancelSuspendTimer <==> s is Background,
        focus_gained(s).1 is NoOp <==> s is Active,
        suspend_due(AppState::Background, SuspendMode::Freeze).0 is Frozen,
        suspend_due(AppState::Background, SuspendMode::Freeze).1 is ApplyFreeze,
        suspend_due(AppState::Background, SuspendMode::Throttle).0 is Throttled,
        suspend_due(AppState::Background, SuspendMode::Throttle).1 is ApplyThrottle,
{
}

/// What starts or applies a suspension needs management; what undoes one never does.
pub proof fn only_suspending_needs_management(a: TransitionAction)
    ensures
        a is StartSuspendTimer || a is ApplyFreeze || a is ApplyThrottle ==> a.managed(),
        a is Thaw || a is RemoveThrottle || a is CancelSuspendTimer || a is NoOp ==> !a.managed(),
{
}

} // verus!
