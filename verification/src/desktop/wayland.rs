//! Wayland focus tracking.
//!
//! Three protocols are supported: wlr-foreign-toplevel, KWin scripting and GNOME
//! Shell Introspect.
use vstd::prelude::*;

use crate::error::DesktopError;

pub mod gnome;
pub mod kde;
pub mod wlr_toplevel;

verus! {

/// A compositor protocol.
#[derive(Clone, Copy, Debug, PartialEq, Eq, Structural)]
pub enum WaylandInner {
    Wlr,
    Kde,
    Gnome,
}

/// Wayland focus backend: the protocol it speaks.
#[derive(Debug)]
pub struct WaylandBackend {
    pub inner: WaylandInner,
}

impl WaylandBackend {
    /// Picks the protocol: the first of wlr-foreign-toplevel, KWin scripting and
    /// GNOME Shell Introspect that the compositor answers.
    pub fn new(wlr: bool, kde: bool, gnome: bool) -> (r: Result<Self, DesktopError>)
        ensures
            match r {
                Ok(backend) => {
                    &&& wlr || kde || gnome
                    &&& backend.inner == (if wlr {
                        WaylandInner::Wlr
                    } else if kde {
                        WaylandInner::Kde
                    } else {
                        WaylandInner::Gnome
                    })
                },
                Err(e) => {
                    &&& !wlr && !kde && !gnome
                    &&& e matches DesktopError::WaylandConnection(m)
                    &&& m@ == "no supported Wayland compositor protocol found"@
                },
            },
    {
        if wlr {
            return Ok(WaylandBackend { inner: WaylandInner::Wlr });
        }
        if kde {
            return Ok(WaylandBackend { inner: WaylandInner::Kde });
        }
        if gnome {
            return Ok(WaylandBackend { inner: WaylandInner::Gnome });
        }
        Err(
            DesktopError::WaylandConnection(
                "no supported Wayland compositor protocol found".to_owned(),
            ),
        )
    }
}

} // verus!
