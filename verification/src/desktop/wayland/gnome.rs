//! GNOME Shell Introspect: focus changes between two listings of the windows.
use vstd::prelude::*;

use crate::desktop::proc_info::{
    known_info, owned_by, CachedProcessInfo, InfoTexts, ProcessCache, Readings,
};
use crate::desktop::window::{bare_window, WindowInfo, WindowModel};
use crate::desktop::{event_views, EventModel, FocusEvent};
use crate::state::process_set::lemma_filter_step;

verus! {

/// Window state from GNOME Shell Introspect.
#[derive(Debug)]
pub struct WindowState {
    pub title: String,
    pub app_id: String,
    pub pid: u32,
    pub is_focused: bool,
    pub is_fullscreen: bool,
}

/// The properties of a window, where they are set.
#[derive(Debug)]
pub struct WindowProperties {
    pub title: Option<String>,
    pub app_id: Option<String>,
    pub wm_class: Option<String>,
    pub pid: Option<u32>,
    pub focus: Option<bool>,
    pub fullscreen: Option<bool>,
}

/// Fills in what is not set: an application without an ID goes by its class.
pub fn window_state(props: WindowProperties) -> (r: WindowState)
    ensures
        r.title@ == (match props.title {
            Some(t) => t@,
            None => Seq::empty(),
        }),
        r.app_id@ == (match props.app_id {
            Some(a) => a@,
            None => match props.wm_class {
                Some(c) => c@,
                None => Seq::empty(),
            },
        }),
        r.pid == (match props.pid {
            Some(p) => p,
            None => 0,
        }),
        r.is_focused == (props.focus == Some(true)),
        r.is_fullscreen == (props.fullscreen == Some(true)),
{
    let title = match props.title {
        Some(t) => t,
        None => String::new(),
    };
    let app_id = match props.app_id {
        Some(a) => a,
        None => match props.wm_class {
            Some(c) => c,
            None => String::new(),
        },
    };
    let pid: u32 = match props.pid {
        Some(p) => p,
        None => 0,
    };
    let is_focused = match props.focus {
        Some(f) => f,
        None => false,
    };
    let is_fullscreen = match props.fullscreen {
        Some(f) => f,
        None => false,
    };
    WindowState { title, app_id, pid, is_focused, is_fullscreen }
}

impl WindowState {
    /// The window without its process.
    pub open spec fn described(self, id: u64) -> WindowModel {
        WindowModel {
            title: Some(self.title@),
            app_id: Some(self.app_id@),
            wm_class: Some(self.app_id@),
            is_fullscreen: self.is_fullscreen,
            ..bare_window(id)
        }
    }

    /// The window, with its process where it has one.
    pub open spec fn info(
        self,
        id: u64,
        cache: Map<u32, InfoTexts>,
        seen: Seq<(u32, CachedProcessInfo)>,
    ) -> WindowModel {
        if self.pid > 0 {
            owned_by(self.described(id), self.pid, known_info(cache, seen, self.pid))
        } else {
            self.described(id)
        }
    }

    /// The cache after the window was described.
    pub open spec fn cached(
        self,
        cache: Map<u32, InfoTexts>,
        seen: Seq<(u32, CachedProcessInfo)>,
    ) -> Map<u32, InfoTexts> {
        if self.pid > 0 {
            cache.insert(self.pid, known_info(cache, seen, self.pid))
        } else {
            cache
        }
    }
}

/// Describes a window.
pub fn window_state_to_info(
    id: u64,
    state: &WindowState,
    pid_cache: &mut ProcessCache,
    seen: &Readings,
) -> (r: WindowInfo)
    ensures
        r@ == state.info(id, old(pid_cache)@, seen@),
        final(pid_cache)@ == state.cached(old(pid_cache)@, seen@),
{
    let mut info = WindowInfo::new(id);
    info.title = Some(state.title.clone());
    info.app_id = Some(state.app_id.clone());
    info.wm_class = Some(state.app_id.clone());
    info.is_fullscreen = state.is_fullscreen;
    if state.pid > 0 {
        pid_cache.attach(&mut info, state.pid, seen);
    }
    info
}

/// The IDs of a listing.
pub open spec fn ids_of(windows: Seq<(u64, WindowState)>) -> Seq<u64> {
    windows.map_values(|w: (u64, WindowState)| w.0)
}

/// Those of `known` that a listing no longer holds.
pub open spec fn closed_ids(known: Seq<u64>, windows: Seq<(u64, WindowState)>) -> Seq<u64> {
    known.filter(|id: u64| !ids_of(windows).contains(id))
}

/// What is remembered between two listings.
pub ghost struct TrackerModel {
    /// The window that was last reported focused.
    pub focused: Option<u64>,
    /// Whether it was fullscreen.
    pub fullscreen: bool,
    /// The windows of the last listing.
    pub known: Seq<u64>,
    /// The processes that are known.
    pub cache: Map<u32, InfoTexts>,
}

impl TrackerModel {
    /// Whether a window is to be reported: it is focused, and either it was not
    /// or it became fullscreen or ceased to be.
    pub open spec fn reports(self, w: (u64, WindowState)) -> bool {
        w.1.is_focused && (self.focused != Some(w.0) || w.1.is_fullscreen != self.fullscreen)
    }

    /// After the windows of a listing were looked at for focus changes.
    pub open spec fn looked(
        self,
        windows: Seq<(u64, WindowState)>,
        seen: Seq<(u32, CachedProcessInfo)>,
    ) -> TrackerModel
        decreases windows.len(),
    {
        if windows.len() == 0 {
            self
        } else {
            let p = self.looked(windows.drop_last(), seen);
            let w = windows.last();
            if p.reports(w) {
                TrackerModel {
                    focused: Some(w.0),
                    fullscreen: w.1.is_fullscreen,
                    cache: w.1.cached(p.cache, seen),
                    ..p
                }
            } else {
                p
            }
        }
    }

    /// The focus changes of a listing.
    pub open spec fn changes(
        self,
        windows: Seq<(u64, WindowState)>,
        seen: Seq<(u32, CachedProcessInfo)>,
    ) -> Seq<EventModel>
        decreases windows.len(),
    {
        if windows.len() == 0 {
            Seq::empty()
        } else {
            let p = self.looked(windows.drop_last(), seen);
            let w = windows.last();
            let before = self.changes(windows.drop_last(), seen);
            if p.reports(w) {
                before.push(EventModel::FocusChanged(w.1.info(w.0, p.cache, seen)))
            } else {
                before
            }
        }
    }

    /// What a listing reports: the focus changes, then the windows that closed.
    pub open spec fn reported(
        self,
        windows: Seq<(u64, WindowState)>,
        seen: Seq<(u32, CachedProcessInfo)>,
    ) -> Seq<EventModel> {
        self.changes(windows, seen) + closed_ids(self.known, windows).map_values(
            |id: u64| EventModel::WindowClosed(id),
        )
    }
}

/// Detects focus changes and closed windows.
#[derive(Debug)]
pub struct FocusTracker {
    last_focused: Option<u64>,
    last_fullscreen: bool,
    known_windows: Vec<u64>,
    pid_cache: ProcessCache,
}

impl View for FocusTracker {
    type V = TrackerModel;

    closed spec fn view(&self) -> TrackerModel {
        TrackerModel {
            focused: self.last_focused,
            fullscreen: self.last_fullscreen,
            known: self.known_windows@,
            cache: self.pid_cache@,
        }
    }
}

fn listed(windows: &Vec<(u64, WindowState)>, id: u64) -> (r: bool)
    ensures
        r == ids_of(windows@).contains(id),
{
    let mut i: usize = 0;
    while i < windows.len()
        invariant
            i <= windows@.len(),
            forall|j: int| 0 <= j < i ==> ids_of(windows@)[j] != id,
        decreases windows@.len() - i,
    {
        if windows[i].0 == id {
            proof {
                assert(ids_of(windows@)[i as int] == id);
            }
            return true;
        }
        i = i + 1;
    }
    false
}

fn list_ids(windows: &Vec<(u64, WindowState)>) -> (r: Vec<u64>)
    ensures
        r@ == ids_of(windows@),
{
    let mut out: Vec<u64> = Vec::new();
    let mut i: usize = 0;
    while i < windows.len()
        invariant
            i <= windows@.len(),
            out@ == ids_of(windows@.take(i as int)),
        decreases windows@.len() - i,
    {
        out.push(windows[i].0);
        proof {
            assert(out@ =~= ids_of(windows@.take(i + 1)));
        }
        i = i + 1;
    }
    proof {
        assert(windows@.take(windows@.len() as int) =~= windows@);
    }
    out
}

impl FocusTracker {
    /// A tracker that has seen no listing.
    pub fn new() -> (r: Self)
        ensures
            r@ == (TrackerModel {
                focused: None,
                fullscreen: false,
                known: Seq::empty(),
                cache: Map::empty(),
            }),
    {
        FocusTracker {
            last_focused: None,
            last_fullscreen: false,
            known_windows: Vec::new(),
            pid_cache: ProcessCache::new(),
        }
    }

    /// Whether a process is known.
    pub fn knows(&self, pid: u32) -> (r: bool)
        ensures
            r == self@.cache.contains_key(pid),
    {
        self.pid_cache.knows(pid)
    }

    fn focus_changes(&mut self, windows: &Vec<(u64, WindowState)>, seen: &Readings) -> (r: Vec<
        FocusEvent,
    >)
        ensures
            final(self)@ == old(self)@.looked(windows@, seen@),
            event_views(r@) == old(self)@.changes(windows@, seen@),
    {
        let ghost m = self@;
        let mut out: Vec<FocusEvent> = Vec::new();
        let mut i: usize = 0;
        proof {
            assert(event_views(out@) =~= m.changes(windows@.take(0), seen@));
        }
        while i < windows.len()
            invariant
                i <= windows@.len(),
                self@ == m.looked(windows@.take(i as int), seen@),
                event_views(out@) == m.changes(windows@.take(i as int), seen@),
            decreases windows@.len() - i,
        {
            let ghost before = out@;
            proof {
                assert(windows@.take(i + 1).drop_last() =~= windows@.take(i as int));
            }
            let w = &windows[i];
            if w.1.is_focused && (!matches!(self.last_focused, Some(id) if id == w.0)
                || w.1.is_fullscreen != self.last_fullscreen) {
                let info = window_state_to_info(w.0, &w.1, &mut self.pid_cache, seen);
                self.last_focused = Some(w.0);
                self.last_fullscreen = w.1.is_fullscreen;
                out.push(FocusEvent::FocusChanged(info));
                proof {
                    assert(event_views(out@) =~= event_views(before).push(out@.last()@));
                }
            }
            i = i + 1;
        }
        proof {
            assert(windows@.take(windows@.len() as int) =~= windows@);
        }
        out
    }

    /// Takes a listing of the windows.
    pub fn observe(&mut self, windows: &Vec<(u64, WindowState)>, seen: &Readings) -> (r: Vec<
        FocusEvent,
    >)
        ensures
            event_views(r@) == old(self)@.reported(windows@, seen@),
            final(self)@ == (TrackerModel {
                known: ids_of(windows@),
                ..old(self)@.looked(windows@, seen@)
            }),
    {
        let ghost m = self@;
        let mut out = self.focus_changes(windows, seen);
        let ghost changes = event_views(out@);
        let ghost known = self.known_windows@;
        let ghost gone = |id: u64| !ids_of(windows@).contains(id);
        let ghost close = |id: u64| EventModel::WindowClosed(id);
        let mut i: usize = 0;
        proof {
            lemma_looked_keeps_known(m, windows@, seen@);
            reveal(Seq::filter);
            assert(known.take(0).filter(gone).map_values(close) =~= Seq::empty());
            assert(changes + known.take(0).filter(gone).map_values(close) =~= changes);
        }
        while i < self.known_windows.len()
            invariant
                i <= known.len(),
                known == self.known_windows@,
                self@ == m.looked(windows@, seen@),
                gone == (|id: u64| !ids_of(windows@).contains(id)),
                close == (|id: u64| EventModel::WindowClosed(id)),
                event_views(out@) == changes + known.take(i as int).filter(gone).map_values(close),
            decreases known.len() - i,
        {
            let ghost before = out@;
            let id = self.known_windows[i];
            proof {
                lemma_filter_step(known, gone, i as int);
            }
            if !listed(windows, id) {
                out.push(FocusEvent::WindowClosed { window_id: id });
                proof {
                    let f = known.take(i as int).filter(gone);
                    assert(event_views(out@) =~= event_views(before).push(out@.last()@));
                    assert(f.push(id).map_values(close) =~= f.map_values(close).push(close(id)));
                    assert(event_views(out@) =~= changes + f.push(id).map_values(close));
                }
            }
            i = i + 1;
        }
        proof {
            assert(known.take(known.len() as int) =~= known);
        }
        self.known_windows = list_ids(windows);
        out
    }
}

proof fn lemma_looked_keeps_known(
    m: TrackerModel,
    windows: Seq<(u64, WindowState)>,
    seen: Seq<(u32, CachedProcessInfo)>,
)
    ensures
        m.looked(windows, seen).known == m.known,
    decreases windows.len(),
{
    if windows.len() > 0 {
        lemma_looked_keeps_known(m, windows.drop_last(), seen);
    }
}

/// A listing in which the reported window is still the only focused one, as
/// fullscreen as it was, and in which no window is missing, reports nothing.
pub proof fn quiet_listing_is_silent(
    m: TrackerModel,
    windows: Seq<(u64, WindowState)>,
    seen: Seq<(u32, CachedProcessInfo)>,
)
    requires
        forall|i: int|
            0 <= i < windows.len() && (#[trigger] windows[i]).1.is_focused ==> m.focused == Some(
                windows[i].0,
            ) && m.fullscreen == windows[i].1.is_fullscreen,
        forall|i: int| 0 <= i < m.known.len() ==> ids_of(windows).contains(#[trigger] m.known[i]),
    ensures
        m.reported(windows, seen) == Seq::<EventModel>::empty(),
{
    lemma_no_change(m, windows, seen);
    let gone = |id: u64| !ids_of(windows).contains(id);
    let close = |id: u64| EventModel::WindowClosed(id);
    lemma_none_kept(m.known, gone);
    assert(m.known.filter(gone).map_values(close) =~= Seq::empty());
}

proof fn lemma_no_change(
    m: TrackerModel,
    windows: Seq<(u64, WindowState)>,
    seen: Seq<(u32, CachedProcessInfo)>,
)
    requires
        forall|i: int|
            0 <= i < windows.len() && (#[trigger] windows[i]).1.is_focused ==> m.focused == Some(
                windows[i].0,
            ) && m.fullscreen == windows[i].1.is_fullscreen,
    ensures
        m.looked(windows, seen) == m,
        m.changes(windows, seen) == Seq::<EventModel>::empty(),
    decreases windows.len(),
{
    if windows.len() > 0 {
        let rest = windows.drop_last();
        assert forall|i: int|
            0 <= i < rest.len() && (#[trigger] rest[i]).1.is_focused implies m.focused == Some(
            rest[i].0,
        ) && m.fullscreen == rest[i].1.is_fullscreen by {
            assert(rest[i] == windows[i]);
        }
        lemma_no_change(m, rest, seen);
        assert(windows.last() == windows[windows.len() - 1]);
    }
}

proof fn lemma_none_kept(s: Seq<u64>, keep: spec_fn(u64) -> bool)
    requires
        forall|i: int| 0 <= i < s.len() ==> !keep(#[trigger] s[i]),
    ensures
        s.filter(keep) == Seq::<u64>::empty(),
    decreases s.len(),
{
    reveal(Seq::filter);
    if s.len() > 0 {
        assert(s.last() == s[s.len() - 1]);
        lemma_none_kept(s.drop_last(), keep);
    }
}

/// A window is described by what the shell lists of it, under its application's id as
/// name and class; its process is added where it has one.
pub proof fn listed_windows_are_described(
    w: WindowState,
    id: u64,
    cache: Map<u32, InfoTexts>,
    seen: Seq<(u32, CachedProcessInfo)>,
)
    ensures
        ({
            let r = w.info(id, cache, seen);
            &&& r.window_id == id
            &&& r.title == Some(w.title@)
            &&& r.app_id == Some(w.app_id@)
            &&& r.wm_class == Some(w.app_id@)
            &&& r.is_fullscreen == w.is_fullscreen
            &&& r.desktop is None
            &&& w.pid == 0 ==> r.pid is None && r.executable is None && r.cmdline is None
            &&& w.pid > 0 ==> r.pid == Some(w.pid) && r.executable == Some(
                known_info(cache, seen, w.pid).exe,
            ) && r.cmdline == known_info(cache, seen, w.pid).cmdline
        }),
        w.pid > 0 ==> w.cached(cache, seen).contains_key(w.pid) && known_info(
            w.cached(cache, seen),
            seen,
            w.pid,
        ) == known_info(cache, seen, w.pid),
        w.pid == 0 ==> w.cached(cache, seen) == cache,
{
}

/// Of a listing in which one window has focus, this window is reported exactly where it
/// had not, or where it became fullscreen or ceased to be; and from then on it is the
/// one that has it.
pub proof fn a_new_focus_is_reported(
    m: TrackerModel,
    w: (u64, WindowState),
    seen: Seq<(u32, CachedProcessInfo)>,
)
    ensures
        ({
            let windows = seq![w];
            let news = w.1.is_focused && (m.focused != Some(w.0) || w.1.is_fullscreen
                != m.fullscreen);
            &&& news ==> m.changes(windows, seen) == seq![
                EventModel::FocusChanged(w.1.info(w.0, m.cache, seen)),
            ]
            &&& !news ==> m.changes(windows, seen).len() == 0
            &&& news ==> m.looked(windows, seen).focused == Some(w.0) && m.looked(
                windows,
                seen,
            ).fullscreen == w.1.is_fullscreen
            &&& !news ==> m.looked(windows, seen) == m
            &&& m.looked(windows, seen).changes(windows, seen).len() == 0
        }),
{
    let windows = seq![w];
    assert(windows.drop_last() =~= Seq::empty());
    assert(windows.last() == w);
    reveal_with_fuel(TrackerModel::looked, 2);
    reveal_with_fuel(TrackerModel::changes, 2);
    let none = Seq::<EventModel>::empty();
    let e = EventModel::FocusChanged(w.1.info(w.0, m.cache, seen));
    assert(none.push(e) =~= seq![e]);
}

/// A window that does not have the focus is not reported, wherever it stands in a
/// listing.
pub proof fn windows_without_focus_are_not_reported(
    m: TrackerModel,
    windows: Seq<(u64, WindowState)>,
    w: (u64, WindowState),
    seen: Seq<(u32, CachedProcessInfo)>,
)
    requires
        !w.1.is_focused,
    ensures
        m.changes(windows.push(w), seen) == m.changes(windows, seen),
        m.looked(windows.push(w), seen) == m.looked(windows, seen),
{
    assert(windows.push(w).drop_last() =~= windows);
}

/// The windows that closed are those that the last listing held and this one does not.
pub proof fn vanished_windows_are_closed(
    known: Seq<u64>,
    windows: Seq<(u64, WindowState)>,
    id: u64,
)
    ensures
        closed_ids(known, windows).contains(id) <==> known.contains(id) && forall|i: int|
            0 <= i < windows.len() ==> (#[trigger] windows[i]).0 != id,
    decreases known.len(),
{
    reveal(Seq::filter);
    let ids = ids_of(windows);
    if ids.contains(id) {
        let i = choose|i: int| 0 <= i < ids.len() && ids[i] == id;
        assert(windows[i].0 == id);
    }
    if exists|i: int| 0 <= i < windows.len() && (#[trigger] windows[i]).0 == id {
        let i = choose|i: int| 0 <= i < windows.len() && (#[trigger] windows[i]).0 == id;
        assert(ids[i] == id);
    }
    if known.len() > 0 {
        let before = known.drop_last();
        vanished_windows_are_closed(before, windows, id);
        assert(known =~= before.push(known.last()));
        vstd::seq_lib::lemma_seq_contains_after_push(before, known.last(), id);
        vstd::seq_lib::lemma_seq_contains_after_push(
            closed_ids(before, windows),
            known.last(),
            id,
        );
    }
}

/// Every window that closed is reported closed, and no other.
pub proof fn closed_windows_are_reported(
    m: TrackerModel,
    windows: Seq<(u64, WindowState)>,
    seen: Seq<(u32, CachedProcessInfo)>,
    id: u64,
)
    ensures
        m.reported(windows, seen).contains(EventModel::WindowClosed(id)) <==> m.known.contains(id)
            && forall|i: int| 0 <= i < windows.len() ==> (#[trigger] windows[i]).0 != id,
        m.changes(windows, seen).is_prefix_of(m.reported(windows, seen)),
{
    vanished_windows_are_closed(m.known, windows, id);
    lemma_changes_are_focus(m, windows, seen);
    let first = m.changes(windows, seen);
    let gone = closed_ids(m.known, windows);
    let last = gone.map_values(|id: u64| EventModel::WindowClosed(id));
    let all = m.reported(windows, seen);
    let e = EventModel::WindowClosed(id);
    if all.contains(e) {
        let i = choose|i: int| 0 <= i < all.len() && all[i] == e;
        if i < first.len() {
            assert(first[i] is FocusChanged);
        } else {
            assert(gone[i - first.len()] == id);
        }
    }
    if gone.contains(id) {
        let i = choose|i: int| 0 <= i < gone.len() && gone[i] == id;
        assert(last[i] == e);
        assert(all[first.len() + i] == e);
    }
}

proof fn lemma_changes_are_focus(
    m: TrackerModel,
    windows: Seq<(u64, WindowState)>,
    seen: Seq<(u32, CachedProcessInfo)>,
)
    ensures
        forall|i: int|
            0 <= i < m.changes(windows, seen).len() ==> #[trigger] m.changes(
                windows,
                seen,
            )[i] is FocusChanged,
    decreases windows.len(),
{
    if windows.len() > 0 {
        lemma_changes_are_focus(m, windows.drop_last(), seen);
    }
}

} // verus!
