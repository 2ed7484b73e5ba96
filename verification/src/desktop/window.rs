//! What is known of a desktop window.
use vstd::prelude::*;

use crate::text::{clone_opt, opt_text};

verus! {

/// Virtual desktop placement of a window.
#[derive(Clone, Copy, Debug, PartialEq, Eq, Structural)]
#[non_exhaustive]
pub enum Desktop {
    /// Window is shown on all virtual desktops.
    All,
    /// Window lives on a specific desktop.
    Index(u32),
}

impl Desktop {
    /// Parse a raw `_NET_WM_DESKTOP` value; the largest means "all desktops".
    pub fn from_raw(raw: u32) -> (r: Self)
        ensures
            r == (if raw == u32::MAX {
                Desktop::All
            } else {
                Desktop::Index(raw)
            }),
    {
        if raw == u32::MAX {
            Desktop::All
        } else {
            Desktop::Index(raw)
        }
    }

    /// Whether a window placed here is visible on workspace `current`.
    pub open spec fn shows_on(self, current: u32) -> bool {
        self is All || self == Desktop::Index(current)
    }

    /// Whether this desktop is visible when `current` is the active workspace.
    pub fn matches(self, current: u32) -> (r: bool)
        ensures
            r == self.shows_on(current),
    {
        match self {
            Desktop::All => true,
            Desktop::Index(i) => i == current,
        }
    }
}

/// Information about a desktop window.
#[derive(Debug)]
pub struct WindowInfo {
    /// Window ID.
    pub window_id: u64,
    /// Process ID owning the window.
    pub pid: Option<u32>,
    /// Window title.
    pub title: Option<String>,
    /// WM_CLASS (X11) or app_id (Wayland).
    pub wm_class: Option<String>,
    /// Wayland app_id.
    pub app_id: Option<String>,
    /// Executable name.
    pub executable: Option<String>,
    /// Command line.
    pub cmdline: Option<String>,
    /// Whether the window is fullscreen.
    pub is_fullscreen: bool,
    /// Desktop placement, where it is known.
    pub desktop: Option<Desktop>,
}

/// A window as texts and numbers.
pub ghost struct WindowModel {
    pub window_id: u64,
    pub pid: Option<u32>,
    pub title: Option<Seq<char>>,
    pub wm_class: Option<Seq<char>>,
    pub app_id: Option<Seq<char>>,
    pub executable: Option<Seq<char>>,
    pub cmdline: Option<Seq<char>>,
    pub is_fullscreen: bool,
    pub desktop: Option<Desktop>,
}

impl View for WindowInfo {
    type V = WindowModel;

    open spec fn view(&self) -> WindowModel {
        WindowModel {
            window_id: self.window_id,
            pid: self.pid,
            title: opt_text(self.title),
            wm_class: opt_text(self.wm_class),
            app_id: opt_text(self.app_id),
            executable: opt_text(self.executable),
            cmdline: opt_text(self.cmdline),
            is_fullscreen: self.is_fullscreen,
            desktop: self.desktop,
        }
    }
}

/// A window of which only the ID is known.
pub open spec fn bare_window(window_id: u64) -> WindowModel {
    WindowModel {
        window_id,
        pid: None,
        title: None,
        wm_class: None,
        app_id: None,
        executable: None,
        cmdline: None,
        is_fullscreen: false,
        desktop: None,
    }
}

impl WindowInfo {
    /// Create a new WindowInfo with just a window ID.
    pub fn new(window_id: u64) -> (r: Self)
        ensures
            r == (WindowInfo {
                window_id,
                pid: None,
                title: None,
                wm_class: None,
                app_id: None,
                executable: None,
                cmdline: None,
                is_fullscreen: false,
                desktop: None,
            }),
    {
        WindowInfo {
            window_id,
            pid: None,
            title: None,
            wm_class: None,
            app_id: None,
            executable: None,
            cmdline: None,
            is_fullscreen: false,
            desktop: None,
        }
    }

    /// A copy of the window information.
    pub fn copy(&self) -> (r: Self)
        ensures
            r == *self,
    {
        WindowInfo {
            window_id: self.window_id,
            pid: self.pid,
            title: clone_opt(&self.title),
            wm_class: clone_opt(&self.wm_class),
            app_id: clone_opt(&self.app_id),
            executable: clone_opt(&self.executable),
            cmdline: clone_opt(&self.cmdline),
            is_fullscreen: self.is_fullscreen,
            desktop: self.desktop,
        }
    }
}

/// A window shows on a workspace where it is placed there, or on all of them.
pub proof fn windows_show_where_they_are(current: u32, other: u32)
    ensures
        Desktop::All.shows_on(current),
        Desktop::Index(current).shows_on(current),
        other != current ==> !Desktop::Index(other).shows_on(current),
{
}

/// Of a new window nothing is known but its ID.
pub proof fn a_bare_window_is_blank(window_id: u64)
    ensures
        ({
            let w = bare_window(window_id);
            &&& w.window_id == window_id
            &&& w.pid is None
            &&& w.title is None
            &&& w.wm_class is None
            &&& w.app_id is None
            &&& w.executable is None
            &&& w.cmdline is None
            &&& !w.is_fullscreen
            &&& w.desktop is None
        }),
{
}

} // verus!
