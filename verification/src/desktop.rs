//! Focus tracking: what the window systems report, as events.
use vstd::prelude::*;

use crate::desktop::window::{WindowInfo, WindowModel};
use crate::error::DesktopError;

pub mod proc_info;
pub mod wayland;
pub mod window;
pub mod x11;

verus! {

/// Events emitted by focus backends.
#[derive(Debug)]
#[non_exhaustive]
pub enum FocusEvent {
    /// Active window changed.
    FocusChanged(WindowInfo),
    /// A window was closed.
    WindowClosed { window_id: u64 },
    /// The current virtual desktop changed.
    WorkspaceChanged { desktop: u32 },
    /// Some client asked for `window_id` to be focused.
    ActivationRequested { window_id: u64 },
}

/// A focus event as texts and numbers.
pub ghost enum EventModel {
    FocusChanged(WindowModel),
    WindowClosed(u64),
    WorkspaceChanged(u32),
    ActivationRequested(u64),
}

impl View for FocusEvent {
    type V = EventModel;

    open spec fn view(&self) -> EventModel {
        match *self {
            FocusEvent::FocusChanged(w) => EventModel::FocusChanged(w@),
            FocusEvent::WindowClosed { window_id } => EventModel::WindowClosed(window_id),
            FocusEvent::WorkspaceChanged { desktop } => EventModel::WorkspaceChanged(desktop),
            FocusEvent::ActivationRequested { window_id } => EventModel::ActivationRequested(
                window_id,
            ),
        }
    }
}

/// The events of a list.
pub open spec fn event_views(v: Seq<FocusEvent>) -> Seq<EventModel> {
    v.map_values(|e: FocusEvent| e@)
}

/// What to do next to find a backend.
#[derive(Debug)]
pub enum DetectStep {
    /// Try to connect to the Wayland compositor.
    Wayland,
    /// Try to connect to the X server.
    X11,
    /// Give up.
    Fail(DesktopError),
}

/// Picks the backend to try.
///
/// Wayland comes first where its display is announced. Where it is not, or was
/// tried and failed, X11 follows where its display is announced.
pub fn detect_backend(wayland_display: bool, wayland_failed: bool, x11_display: bool) -> (r:
    DetectStep)
    ensures
        r == (if wayland_display && !wayland_failed {
            DetectStep::Wayland
        } else if x11_display {
            DetectStep::X11
        } else {
            DetectStep::Fail(DesktopError::NoDisplayServer)
        }),
{
    if wayland_display && !wayland_failed {
        return DetectStep::Wayland;
    }
    if x11_display {
        return DetectStep::X11;
    }
    DetectStep::Fail(DesktopError::NoDisplayServer)
}

} // verus!
