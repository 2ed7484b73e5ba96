//! KDE Plasma: events of the KWin script.
use vstd::prelude::*;

use crate::assoc::Assoc;
use crate::desktop::proc_info::{
    known_info, owned_by, CachedProcessInfo, InfoTexts, ProcessCache, Readings,
};
use crate::desktop::window::{bare_window, WindowInfo, WindowModel};
use crate::desktop::{EventModel, FocusEvent};
use crate::error::DesktopError;
use crate::text::cat4;

verus! {

/// What happened to a window.
#[derive(Clone, Copy, Debug, PartialEq, Eq, Structural)]
pub enum EventKind {
    Focused,
    Closed,
}

/// An event of the script.
#[derive(Debug)]
pub struct KdeEvent {
    pub kind: EventKind,
    pub window: Option<KdeWindow>,
}

/// A window, as the script describes it.
#[derive(Debug)]
pub struct KdeWindow {
    pub id: String,
    pub pid: i32,
    pub title: String,
    pub app_id: String,
    pub resource_class: String,
    pub fullscreen: bool,
}

impl KdeWindow {
    /// The window without its process.
    pub open spec fn described(self, window_id: u64) -> WindowModel {
        WindowModel {
            title: Some(self.title@),
            app_id: Some(
                if self.app_id@.len() == 0 {
                    self.resource_class@
                } else {
                    self.app_id@
                },
            ),
            wm_class: Some(self.resource_class@),
            is_fullscreen: self.fullscreen,
            ..bare_window(window_id)
        }
    }

    /// The window, with its process where it has one.
    pub open spec fn info(
        self,
        window_id: u64,
        cache: Map<u32, InfoTexts>,
        seen: Seq<(u32, CachedProcessInfo)>,
    ) -> WindowModel {
        if self.pid > 0 {
            owned_by(
                self.described(window_id),
                self.pid as u32,
                known_info(cache, seen, self.pid as u32),
            )
        } else {
            self.described(window_id)
        }
    }

    /// The cache after the window was described.
    pub open spec fn cached(
        self,
        cache: Map<u32, InfoTexts>,
        seen: Seq<(u32, CachedProcessInfo)>,
    ) -> Map<u32, InfoTexts> {
        if self.pid > 0 {
            cache.insert(self.pid as u32, known_info(cache, seen, self.pid as u32))
        } else {
            cache
        }
    }

    /// Describes the window. A window without a positive PID has no process.
    pub fn to_info(&self, window_id: u64, pid_cache: &mut ProcessCache, seen: &Readings) -> (r:
        WindowInfo)
        ensures
            r@ == self.info(window_id, old(pid_cache)@, seen@),
            final(pid_cache)@ == self.cached(old(pid_cache)@, seen@),
    {
        let mut info = WindowInfo::new(window_id);
        info.title = Some(self.title.clone());
        info.app_id = Some(
            if self.app_id.as_str().is_empty() {
                self.resource_class.clone()
            } else {
                self.app_id.clone()
            },
        );
        info.wm_class = Some(self.resource_class.clone());
        info.is_fullscreen = self.fullscreen;
        if self.pid > 0 {
            pid_cache.attach(&mut info, self.pid as u32, seen);
        }
        info
    }
}

/// Maps the identifiers of the script to window IDs, and its events to focus
/// events.
#[derive(Debug)]
pub struct EventMapper {
    window_ids: Assoc<u64>,
    next_window_id: u64,
    pid_cache: ProcessCache,
}

impl EventMapper {
    /// The window IDs that were given out.
    pub closed spec fn ids(&self) -> Map<Seq<char>, u64> {
        self.window_ids@
    }

    /// The next window ID.
    pub closed spec fn next(&self) -> u64 {
        self.next_window_id
    }

    /// The processes that are known.
    pub closed spec fn cache(&self) -> Map<u32, InfoTexts> {
        self.pid_cache@
    }

    /// Well-formedness: window IDs are distinct and were given out in order.
    pub closed spec fn wf(&self) -> bool {
        &&& self.window_ids.wf()
        &&& forall|a: Seq<char>| #[trigger]
            self.window_ids@.contains_key(a) ==> self.window_ids@[a] < self.next_window_id
        &&& forall|a: Seq<char>, b: Seq<char>|
            self.window_ids@.contains_key(a) && self.window_ids@.contains_key(b) && a != b
                ==> #[trigger] self.window_ids@[a] != #[trigger] self.window_ids@[b]
    }

    /// A mapper that has seen no window.
    pub fn new() -> (r: Self)
        ensures
            r.wf(),
            r.ids() == Map::<Seq<char>, u64>::empty(),
            r.next() == 1,
            r.cache() == Map::<u32, InfoTexts>::empty(),
    {
        EventMapper { window_ids: Assoc::new(), next_window_id: 1, pid_cache: ProcessCache::new() }
    }

    /// Whether an ID is left for another window.
    pub fn has_ids(&self) -> (r: bool)
        ensures
            r == (self.next() < u64::MAX),
    {
        self.next_window_id < u64::MAX
    }

    /// Whether a process is known.
    pub fn knows(&self, pid: u32) -> (r: bool)
        ensures
            r == self.cache().contains_key(pid),
    {
        self.pid_cache.knows(pid)
    }

    fn window_id(&mut self, id: &String) -> (r: u64)
        requires
            old(self).wf(),
            old(self).next() < u64::MAX,
        ensures
            final(self).wf(),
            final(self).cache() == old(self).cache(),
            if old(self).ids().contains_key(id@) {
                &&& r == old(self).ids()[id@]
                &&& final(self).ids() == old(self).ids()
                &&& final(self).next() == old(self).next()
            } else {
                &&& r == old(self).next()
                &&& final(self).ids() == old(self).ids().insert(id@, r)
                &&& final(self).next() == old(self).next() + 1
            },
    {
        if let Some(known) = self.window_ids.get(id) {
            return *known;
        }
        let fresh = self.next_window_id;
        self.next_window_id = self.next_window_id + 1;
        self.window_ids.insert(id.clone(), fresh);
        fresh
    }

    /// Maps an event.
    ///
    /// A focused window gets an ID when it is first seen. A closed window is
    /// reported, and its ID forgotten, only where it has one. An event without a
    /// window means nothing.
    pub fn map(&mut self, event: KdeEvent, seen: &Readings) -> (r: Option<FocusEvent>)
        requires
            old(self).wf(),
            old(self).next() < u64::MAX,
        ensures
            final(self).wf(),
            match event.window {
                None => {
                    &&& r is None
                    &&& *final(self) == *old(self)
                },
                Some(w) => {
                    let has = old(self).ids().contains_key(w.id@);
                    match event.kind {
                        EventKind::Focused => {
                            let id = if has {
                                old(self).ids()[w.id@]
                            } else {
                                old(self).next()
                            };
                            &&& r matches Some(e)
                            &&& e@ == EventModel::FocusChanged(
                                w.info(id, old(self).cache(), seen@),
                            )
                            &&& final(self).ids() == old(self).ids().insert(w.id@, id)
                            &&& final(self).next() == (if has {
                                old(self).next() as int
                            } else {
                                old(self).next() + 1
                            })
                            &&& final(self).cache() == w.cached(old(self).cache(), seen@)
                        },
                        EventKind::Closed => {
                            &&& if has {
                                &&& r matches Some(e)
                                &&& e@ == EventModel::WindowClosed(old(self).ids()[w.id@])
                            } else {
                                r is None
                            }
                            &&& final(self).ids() == old(self).ids().remove(w.id@)
                            &&& final(self).next() == old(self).next()
                            &&& final(self).cache() == old(self).cache()
                        },
                    }
                },
            },
    {
        let ghost ids = self.ids();
        let window = match event.window {
            Some(w) => w,
            None => {
                return None;
            },
        };
        match event.kind {
            EventKind::Focused => {
                let window_id = self.window_id(&window.id);
                proof {
                    assert(self.ids() =~= ids.insert(window.id@, window_id));
                }
                let info = window.to_info(window_id, &mut self.pid_cache, seen);
                Some(FocusEvent::FocusChanged(info))
            },
            EventKind::Closed => match self.window_ids.remove(&window.id) {
                Some(window_id) => Some(FocusEvent::WindowClosed { window_id }),
                None => {
                    proof {
                        assert(ids.remove(window.id@) =~= ids);
                    }
                    None
                },
            },
        }
    }
}

/// A failure of the KWin bridge, with what was being done.
pub fn kde_error(context: &str, error: &str) -> (r: DesktopError)
    ensures
        r matches DesktopError::WaylandConnection(m) && m@ == "KDE "@ + context@ + ": "@ + error@,
{
    DesktopError::WaylandConnection(cat4("KDE ", context, ": ", error))
}

/// A window is described by what the script says of it; an application without an id
/// goes by its class. Its process is added where it has one.
pub proof fn script_windows_are_described(
    w: KdeWindow,
    id: u64,
    cache: Map<u32, InfoTexts>,
    seen: Seq<(u32, CachedProcessInfo)>,
)
    ensures
        ({
            let r = w.info(id, cache, seen);
            &&& r.window_id == id
            &&& r.title == Some(w.title@)
            &&& w.app_id@.len() > 0 ==> r.app_id == Some(w.app_id@)
            &&& w.app_id@.len() == 0 ==> r.app_id == Some(w.resource_class@)
            &&& r.wm_class == Some(w.resource_class@)
            &&& r.is_fullscreen == w.fullscreen
            &&& r.desktop is None
            &&& w.pid <= 0 ==> r.pid is None && r.executable is None && r.cmdline is None
            &&& w.pid > 0 ==> r.pid == Some(w.pid as u32) && r.executable == Some(
                known_info(cache, seen, w.pid as u32).exe,
            ) && r.cmdline == known_info(cache, seen, w.pid as u32).cmdline
        }),
        w.pid > 0 ==> known_info(w.cached(cache, seen), seen, w.pid as u32) == known_info(
            cache,
            seen,
            w.pid as u32,
        ) && w.cached(cache, seen).contains_key(w.pid as u32),
        w.pid <= 0 ==> w.cached(cache, seen) == cache,
{
}

} // verus!
