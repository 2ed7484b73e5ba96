//! wlr-foreign-toplevel: the toplevels that the compositor announces.
use std::collections::HashMap;
use vstd::prelude::*;

use crate::assoc::Assoc;
use crate::desktop::proc_info::{
    owned_by, set_owner, CachedProcessInfo, InfoTexts, Readings,
};
use crate::desktop::window::{bare_window, WindowInfo, WindowModel};
use crate::desktop::x11::{holds_word, parse_u32_slice, words_of, ByteOrder};
use crate::desktop::{event_views, EventModel, FocusEvent};
use crate::text::same_text;

verus! {

broadcast use vstd::std_specs::hash::group_hash_axioms;

/// The protocol's state value of the toplevel that has focus.
pub const STATE_ACTIVATED: u32 = 2;

/// The protocol's state value of a fullscreen toplevel.
pub const STATE_FULLSCREEN: u32 = 3;

/// State for each tracked toplevel.
#[derive(Debug)]
pub struct ToplevelState {
    pub title: String,
    pub app_id: String,
    pub is_activated: bool,
    pub is_fullscreen: bool,
}

/// The state of a toplevel as texts.
pub ghost struct TopModel {
    pub title: Seq<char>,
    pub app_id: Seq<char>,
    pub is_activated: bool,
    pub is_fullscreen: bool,
}

impl View for ToplevelState {
    type V = TopModel;

    open spec fn view(&self) -> TopModel {
        TopModel {
            title: self.title@,
            app_id: self.app_id@,
            is_activated: self.is_activated,
            is_fullscreen: self.is_fullscreen,
        }
    }
}

/// A toplevel of which nothing is known yet.
pub open spec fn blank_top() -> TopModel {
    TopModel {
        title: Seq::empty(),
        app_id: Seq::empty(),
        is_activated: false,
        is_fullscreen: false,
    }
}

impl Default for ToplevelState {
    fn default() -> (r: Self)
        ensures
            r@ == blank_top(),
    {
        ToplevelState {
            title: String::new(),
            app_id: String::new(),
            is_activated: false,
            is_fullscreen: false,
        }
    }
}

impl TopModel {
    /// The toplevel as a window without a process.
    pub open spec fn described(self, id: u64) -> WindowModel {
        WindowModel {
            title: Some(self.title),
            app_id: Some(self.app_id),
            wm_class: Some(self.app_id),
            is_fullscreen: self.is_fullscreen,
            ..bare_window(id)
        }
    }
}

/// What `str::to_lowercase` returns: the lowercase equivalent of a text by
/// Unicode.
pub uninterp spec fn lowercase(s: Seq<char>) -> Seq<char>;

/// `str::to_lowercase`, whose result is named.
#[verifier::external_body]
fn to_lowercase(s: &str) -> (r: String)
    ensures
        r@ == lowercase(s@),
{
    s.to_lowercase()
}

/// The first process whose name is `name`, where both are folded to lower case.
pub open spec fn named_process(name: Seq<char>, names: Seq<(u32, Seq<char>)>) -> Option<int>
    decreases names.len(),
{
    if names.len() == 0 {
        None
    } else if named_process(name, names.drop_last()) is Some {
        named_process(name, names.drop_last())
    } else if names.last().1 == name {
        Some(names.len() - 1)
    } else {
        None
    }
}

/// The folded names of processes.
pub open spec fn folded(procs: Seq<(u32, CachedProcessInfo)>) -> Seq<(u32, Seq<char>)> {
    procs.map_values(|p: (u32, CachedProcessInfo)| (p.0, lowercase(p.1.exe@)))
}

/// Names that were folded, as texts.
pub open spec fn name_views(names: Seq<(u32, String)>) -> Seq<(u32, Seq<char>)> {
    names.map_values(|p: (u32, String)| (p.0, p.1@))
}

/// Finds the first process of a name, where the names are folded to lower case.
/// The result is its place in the list.
pub fn find_folded(name: &str, names: &Vec<(u32, String)>) -> (r: Option<usize>)
    ensures
        match r {
            Some(i) => i < names@.len() && named_process(name@, name_views(names@)) == Some(
                i as int,
            ),
            None => named_process(name@, name_views(names@)) is None,
        },
{
    let ghost views = name_views(names@);
    let mut i: usize = 0;
    while i < names.len()
        invariant
            i <= names@.len(),
            views == name_views(names@),
            named_process(name@, views.take(i as int)) is None,
        decreases names@.len() - i,
    {
        proof {
            assert(views.take(i + 1).drop_last() =~= views.take(i as int));
        }
        if same_text(&names[i].1, name) {
            proof {
                lemma_first_stays(name@, views, i as int);
            }
            return Some(i);
        }
        i = i + 1;
    }
    proof {
        assert(views.take(views.len() as int) =~= views);
    }
    None
}

proof fn lemma_first_stays(name: Seq<char>, names: Seq<(u32, Seq<char>)>, i: int)
    requires
        0 <= i < names.len(),
        named_process(name, names.take(i + 1)) == Some(i),
    ensures
        named_process(name, names) == Some(i),
    decreases names.len() - i,
{
    lemma_first_stays_up_to(name, names, i, names.len() as int);
    assert(names.take(names.len() as int) =~= names);
}

proof fn lemma_first_stays_up_to(name: Seq<char>, names: Seq<(u32, Seq<char>)>, i: int, n: int)
    requires
        0 <= i < n <= names.len(),
        named_process(name, names.take(i + 1)) == Some(i),
    ensures
        named_process(name, names.take(n)) == Some(i),
    decreases n,
{
    if n > i + 1 {
        lemma_first_stays_up_to(name, names, i, n - 1);
        assert(names.take(n).drop_last() =~= names.take(n - 1));
    }
}

/// Best-effort lookup of the process of an application: the first of `procs`
/// whose executable has its ID as name, without regard to case.
pub fn find_pid_by_app_id(app_id: &str, procs: &Readings) -> (r: Option<usize>)
    ensures
        match r {
            Some(i) => i < procs@.len() && named_process(lowercase(app_id@), folded(procs@))
                == Some(i as int),
            None => named_process(lowercase(app_id@), folded(procs@)) is None,
        },
{
    let name = to_lowercase(app_id);
    let mut names: Vec<(u32, String)> = Vec::new();
    let mut i: usize = 0;
    while i < procs.len()
        invariant
            i <= procs@.len(),
            names@.len() == i,
            forall|j: int|
                0 <= j < i ==> (#[trigger] name_views(names@)[j]) == folded(procs@)[j],
        decreases procs@.len() - i,
    {
        let ghost before = name_views(names@);
        names.push((procs[i].0, to_lowercase(&procs[i].1.exe)));
        proof {
            assert(name_views(names@) =~= before.push(folded(procs@)[i as int]));
        }
        i = i + 1;
    }
    proof {
        assert(name_views(names@) =~= folded(procs@));
    }
    find_folded(&name, &names)
}

/// Cached PID info to avoid repeated scans.
#[derive(Debug)]
pub struct CachedPid {
    pub pid: u32,
    pub info: CachedProcessInfo,
}

/// A cached process.
pub ghost struct PidModel {
    pub pid: u32,
    pub info: InfoTexts,
}

impl View for CachedPid {
    type V = PidModel;

    open spec fn view(&self) -> PidModel {
        PidModel { pid: self.pid, info: self.info@ }
    }
}

/// What is known of the process of an application: what is cached, else what is
/// found. An application without an ID has no process.
pub open spec fn process_of(
    app_id: Seq<char>,
    cache: Map<Seq<char>, PidModel>,
    procs: Seq<(u32, CachedProcessInfo)>,
) -> Option<PidModel> {
    if app_id.len() == 0 {
        None
    } else if cache.contains_key(app_id) {
        Some(cache[app_id])
    } else {
        match named_process(lowercase(app_id), folded(procs)) {
            Some(i) => Some(PidModel { pid: procs[i].0, info: procs[i].1@ }),
            None => None,
        }
    }
}

/// A toplevel with its process, where that is known.
pub open spec fn top_info(id: u64, top: TopModel, process: Option<PidModel>) -> WindowModel {
    match process {
        Some(p) => owned_by(top.described(id), p.pid, p.info),
        None => top.described(id),
    }
}

/// The cache with the process of an application, where that is known.
pub open spec fn top_cached(
    cache: Map<Seq<char>, PidModel>,
    app_id: Seq<char>,
    process: Option<PidModel>,
) -> Map<Seq<char>, PidModel> {
    match process {
        Some(p) => cache.insert(app_id, p),
        None => cache,
    }
}

/// The processes in a cache.
pub open spec fn cache_view(cache: Assoc<CachedPid>) -> Map<Seq<char>, PidModel> {
    cache@.map_values(|c: CachedPid| c@)
}

/// Describes a toplevel. The protocol gives no PID: it comes from the cache, or
/// from a scan of the processes, which is then cached.
pub fn toplevel_to_window_info(
    id: u64,
    toplevel: &ToplevelState,
    pid_cache: &mut Assoc<CachedPid>,
    procs: &Readings,
) -> (r: WindowInfo)
    requires
        old(pid_cache).wf(),
    ensures
        final(pid_cache).wf(),
        r@ == top_info(
            id,
            toplevel@,
            process_of(toplevel@.app_id, cache_view(*old(pid_cache)), procs@),
        ),
        cache_view(*final(pid_cache)) == top_cached(
            cache_view(*old(pid_cache)),
            toplevel@.app_id,
            process_of(toplevel@.app_id, cache_view(*old(pid_cache)), procs@),
        ),
{
    let ghost m = cache_view(*pid_cache);
    let mut info = WindowInfo::new(id);
    info.title = Some(toplevel.title.clone());
    info.app_id = Some(toplevel.app_id.clone());
    info.wm_class = Some(toplevel.app_id.clone());
    info.is_fullscreen = toplevel.is_fullscreen;
    if toplevel.app_id.as_str().is_empty() {
        return info;
    }
    if let Some(cached) = pid_cache.get(&toplevel.app_id) {
        set_owner(&mut info, cached.pid, &cached.info);
        proof {
            assert(m.insert(toplevel@.app_id, m[toplevel@.app_id]) =~= m);
        }
        return info;
    }
    if let Some(i) = find_pid_by_app_id(&toplevel.app_id, procs) {
        let found = CachedPid { pid: procs[i].0, info: procs[i].1.copy() };
        set_owner(&mut info, found.pid, &found.info);
        let ghost p = found@;
        pid_cache.insert(toplevel.app_id.clone(), found);
        proof {
            assert(cache_view(*pid_cache) =~= m.insert(toplevel@.app_id, p));
        }
    }
    info
}

/// What the compositor says of a toplevel.
#[derive(Debug)]
pub enum ToplevelEvent {
    Title(String),
    AppId(String),
    /// The states that it is in, as words.
    State(Vec<u8>),
    /// What was said is to be applied.
    Done,
    /// It is gone.
    Closed,
}

/// What is known of the toplevels.
pub ghost struct WlrModel {
    /// What applies.
    pub toplevels: Map<u64, TopModel>,
    /// What was said since.
    pub pending: Map<u64, TopModel>,
    /// The window ID of each protocol object.
    pub ids: Map<u32, u64>,
    pub next_id: u64,
    /// The process of each application.
    pub cache: Map<Seq<char>, PidModel>,
    /// Events that were not handed out yet.
    pub events: Seq<EventModel>,
}

impl WlrModel {
    /// The ID of a toplevel.
    pub open spec fn id_of(self, handle: u32) -> u64 {
        if self.ids.contains_key(handle) {
            self.ids[handle]
        } else {
            self.next_id
        }
    }

    /// After a toplevel was named.
    pub open spec fn named(self, handle: u32) -> WlrModel {
        if self.ids.contains_key(handle) {
            self
        } else {
            WlrModel {
                ids: self.ids.insert(handle, self.next_id),
                next_id: (self.next_id + 1) as u64,
                ..self
            }
        }
    }

    /// What was said of a toplevel.
    pub open spec fn pending_of(self, id: u64) -> TopModel {
        if self.pending.contains_key(id) {
            self.pending[id]
        } else {
            blank_top()
        }
    }

    /// After something was said of a toplevel.
    pub open spec fn said(self, id: u64, top: TopModel) -> WlrModel {
        WlrModel { pending: self.pending.insert(id, top), ..self }
    }

    /// Whether applying what was said is a focus change: the toplevel has focus,
    /// and either it had not or it became fullscreen or ceased to be.
    pub open spec fn announces(self, id: u64) -> bool {
        let had = self.toplevels.contains_key(id);
        let p = self.pending[id];
        &&& self.pending.contains_key(id)
        &&& p.is_activated
        &&& !(had && self.toplevels[id].is_activated) || p.is_fullscreen != (had
            && self.toplevels[id].is_fullscreen)
    }

    /// After what was said of a toplevel was applied.
    pub open spec fn applied(self, id: u64, procs: Seq<(u32, CachedProcessInfo)>) -> WlrModel {
        let p = self.pending[id];
        if !self.pending.contains_key(id) {
            self
        } else {
            let m = WlrModel {
                toplevels: self.toplevels.insert(id, p),
                pending: self.pending.remove(id),
                ..self
            };
            if self.announces(id) {
                let process = process_of(p.app_id, self.cache, procs);
                WlrModel {
                    cache: top_cached(self.cache, p.app_id, process),
                    events: self.events.push(
                        EventModel::FocusChanged(top_info(id, p, process)),
                    ),
                    ..m
                }
            } else {
                m
            }
        }
    }

    /// After a toplevel was closed. The process of its application is forgotten.
    pub open spec fn closed(self, handle: u32, id: u64) -> WlrModel {
        WlrModel {
            ids: self.ids.remove(handle),
            toplevels: self.toplevels.remove(id),
            pending: self.pending.remove(id),
            cache: if self.toplevels.contains_key(id) {
                self.cache.remove(self.toplevels[id].app_id)
            } else {
                self.cache
            },
            events: self.events.push(EventModel::WindowClosed(id)),
            ..self
        }
    }

    /// After an event.
    pub open spec fn after(
        self,
        handle: u32,
        event: ToplevelEvent,
        procs: Seq<(u32, CachedProcessInfo)>,
        order: ByteOrder,
    ) -> WlrModel {
        let id = self.id_of(handle);
        let m = self.named(handle);
        match event {
            ToplevelEvent::Title(title) => m.said(
                id,
                TopModel { title: title@, ..m.pending_of(id) },
            ),
            ToplevelEvent::AppId(app_id) => m.said(
                id,
                TopModel { app_id: app_id@, ..m.pending_of(id) },
            ),
            ToplevelEvent::State(raw) => m.said(
                id,
                TopModel {
                    is_activated: words_of(raw@, order).contains(STATE_ACTIVATED),
                    is_fullscreen: words_of(raw@, order).contains(STATE_FULLSCREEN),
                    ..m.pending_of(id)
                },
            ),
            ToplevelEvent::Done => m.applied(id, procs),
            ToplevelEvent::Closed => m.closed(handle, id),
        }
    }
}

/// The toplevels, and the events that they lead to.
#[derive(Debug)]
pub struct WlrState {
    toplevels: HashMap<u64, ToplevelState>,
    /// Pending state updates.
    pending: HashMap<u64, ToplevelState>,
    /// Events to be sent to the engine.
    pending_events: Vec<FocusEvent>,
    /// Counter for generating unique toplevel IDs.
    next_id: u64,
    /// Maps a protocol object to our ID.
    handle_ids: HashMap<u32, u64>,
    /// Processes by application.
    pid_cache: Assoc<CachedPid>,
}

impl View for WlrState {
    type V = WlrModel;

    closed spec fn view(&self) -> WlrModel {
        WlrModel {
            toplevels: self.toplevels@.map_values(|t: ToplevelState| t@),
            pending: self.pending@.map_values(|t: ToplevelState| t@),
            ids: self.handle_ids@,
            next_id: self.next_id,
            cache: cache_view(self.pid_cache),
            events: event_views(self.pending_events@),
        }
    }
}

impl WlrState {
    /// Well-formedness.
    pub closed spec fn wf(&self) -> bool {
        self.pid_cache.wf()
    }

    /// No toplevel is known.
    pub fn new() -> (r: Self)
        ensures
            r.wf(),
            r@ == (WlrModel {
                toplevels: Map::empty(),
                pending: Map::empty(),
                ids: Map::empty(),
                next_id: 1,
                cache: Map::empty(),
                events: Seq::empty(),
            }),
    {
        let r = WlrState {
            toplevels: HashMap::new(),
            pending: HashMap::new(),
            pending_events: Vec::new(),
            next_id: 1,
            handle_ids: HashMap::new(),
            pid_cache: Assoc::new(),
        };
        proof {
            assert(r@.toplevels =~= Map::empty());
            assert(r@.pending =~= Map::empty());
            assert(r@.ids =~= Map::empty());
            assert(r@.cache =~= Map::empty());
            assert(r@.events =~= Seq::empty());
        }
        r
    }

    /// Whether an ID is left for another toplevel.
    pub fn has_ids(&self) -> (r: bool)
        ensures
            r == (self@.next_id < u64::MAX),
    {
        self.next_id < u64::MAX
    }

    /// Hands out the events.
    pub fn take_events(&mut self) -> (r: Vec<FocusEvent>)
        requires
            old(self).wf(),
        ensures
            final(self).wf(),
            event_views(r@) == old(self)@.events,
            final(self)@ == (WlrModel { events: Seq::empty(), ..old(self)@ }),
    {
        let mut out: Vec<FocusEvent> = Vec::new();
        std::mem::swap(&mut out, &mut self.pending_events);
        proof {
            assert(self@.events =~= Seq::empty());
        }
        out
    }

    /// Whether a scan of the processes is wanted before what was said of a
    /// toplevel is applied.
    pub fn wants_scan(&self, handle: u32) -> (r: bool)
        requires
            self.wf(),
        ensures
            r == {
                let id = self@.id_of(handle);
                let app_id = self@.pending[id].app_id;
                self@.announces(id) && app_id.len() > 0 && !self@.cache.contains_key(app_id)
            },
    {
        let id = match self.handle_ids.get(&handle) {
            Some(id) => *id,
            None => self.next_id,
        };
        match self.pending.get(&id) {
            Some(p) => {
                self.changes_focus(id, p) && !p.app_id.as_str().is_empty()
                    && !self.pid_cache.contains_key(&p.app_id)
            },
            None => false,
        }
    }

    fn changes_focus(&self, id: u64, p: &ToplevelState) -> (r: bool)
        ensures
            r == (p.is_activated && {
                let had = self@.toplevels.contains_key(id);
                !(had && self@.toplevels[id].is_activated) || p.is_fullscreen != (had
                    && self@.toplevels[id].is_fullscreen)
            }),
    {
        let (was_activated, was_fullscreen) = match self.toplevels.get(&id) {
            Some(t) => (t.is_activated, t.is_fullscreen),
            None => (false, false),
        };
        p.is_activated && (!was_activated || p.is_fullscreen != was_fullscreen)
    }

    fn get_or_create_id(&mut self, handle: u32) -> (r: u64)
        requires
            old(self).wf(),
            old(self)@.next_id < u64::MAX,
        ensures
            final(self).wf(),
            r == old(self)@.id_of(handle),
            final(self)@ == old(self)@.named(handle),
    {
        if let Some(id) = self.handle_ids.get(&handle) {
            return *id;
        }
        let id = self.next_id;
        self.next_id = self.next_id + 1;
        self.handle_ids.insert(handle, id);
        id
    }

    fn take_pending(&mut self, id: u64) -> (r: ToplevelState)
        requires
            old(self).wf(),
        ensures
            final(self).wf(),
            r@ == old(self)@.pending_of(id),
            final(self)@ == (WlrModel { pending: old(self)@.pending.remove(id), ..old(self)@ }),
    {
        let ghost before = self@.pending;
        let r = match self.pending.remove(&id) {
            Some(p) => p,
            None => ToplevelState::default(),
        };
        proof {
            assert(self@.pending =~= before.remove(id));
        }
        r
    }

    fn put_pending(&mut self, id: u64, p: ToplevelState)
        requires
            old(self).wf(),
        ensures
            final(self).wf(),
            final(self)@ == (WlrModel { pending: old(self)@.pending.insert(id, p@), ..old(self)@ }),
    {
        let ghost before = self@.pending;
        let ghost v = p@;
        self.pending.insert(id, p);
        proof {
            assert(self@.pending =~= before.insert(id, v));
        }
    }

    fn apply(&mut self, id: u64, procs: &Readings)
        requires
            old(self).wf(),
        ensures
            final(self).wf(),
            final(self)@ == old(self)@.applied(id, procs@),
    {
        let ghost m = self@;
        if !self.pending.contains_key(&id) {
            return;
        }
        let p = self.take_pending(id);
        let ghost v = p@;
        if self.changes_focus(id, &p) {
            let ghost events = self.pending_events@;
            let info = toplevel_to_window_info(id, &p, &mut self.pid_cache, procs);
            self.pending_events.push(FocusEvent::FocusChanged(info));
            proof {
                assert(event_views(self.pending_events@) =~= event_views(events).push(
                    self.pending_events@.last()@,
                ));
            }
        }
        self.toplevels.insert(id, p);
        proof {
            assert(self@.toplevels =~= m.toplevels.insert(id, v));
        }
    }

    fn close(&mut self, handle: u32, id: u64)
        requires
            old(self).wf(),
        ensures
            final(self).wf(),
            final(self)@ == old(self)@.closed(handle, id),
    {
        let ghost m = self@;
        let ghost events = self.pending_events@;
        self.handle_ids.remove(&handle);
        match self.toplevels.remove(&id) {
            Some(toplevel) => {
                self.pid_cache.remove(&toplevel.app_id);
                proof {
                    assert(cache_view(self.pid_cache) =~= m.cache.remove(toplevel@.app_id));
                }
            },
            None => {},
        }
        self.pending.remove(&id);
        self.pending_events.push(FocusEvent::WindowClosed { window_id: id });
        proof {
            assert(self@.ids =~= m.ids.remove(handle));
            assert(self@.toplevels =~= m.toplevels.remove(id));
            assert(self@.pending =~= m.pending.remove(id));
            assert(event_views(self.pending_events@) =~= event_views(events).push(
                EventModel::WindowClosed(id),
            ));
        }
    }

    /// Takes what the compositor says of a toplevel.
    pub fn handle_event(
        &mut self,
        handle: u32,
        event: ToplevelEvent,
        procs: &Readings,
        order: ByteOrder,
    )
        requires
            old(self).wf(),
            old(self)@.next_id < u64::MAX,
        ensures
            final(self).wf(),
            final(self)@ == old(self)@.after(handle, event, procs@, order),
    {
        let id = self.get_or_create_id(handle);
        let ghost m = self@;
        match event {
            ToplevelEvent::Title(title) => {
                let mut p = self.take_pending(id);
                p.title = title;
                self.put_pending(id, p);
                proof {
                    assert(m.pending.remove(id).insert(id, p@) =~= m.pending.insert(id, p@));
                }
            },
            ToplevelEvent::AppId(app_id) => {
                let mut p = self.take_pending(id);
                p.app_id = app_id;
                self.put_pending(id, p);
                proof {
                    assert(m.pending.remove(id).insert(id, p@) =~= m.pending.insert(id, p@));
                }
            },
            ToplevelEvent::State(raw) => {
                let mut p = self.take_pending(id);
                let states = parse_u32_slice(&raw, order);
                p.is_activated = holds_word(&states, STATE_ACTIVATED);
                p.is_fullscreen = holds_word(&states, STATE_FULLSCREEN);
                self.put_pending(id, p);
                proof {
                    assert(m.pending.remove(id).insert(id, p@) =~= m.pending.insert(id, p@));
                }
            },
            ToplevelEvent::Done => {
                self.apply(id, procs);
            },
            ToplevelEvent::Closed => {
                self.close(handle, id);
            },
        }
    }
}

/// A toplevel keeps its ID for as long as it is there, and a new one gets an ID that
/// no other has.
pub proof fn toplevels_keep_their_ids(m: WlrModel, handle: u32, other: u32)
    requires
        forall|h: u32| #[trigger] m.ids.contains_key(h) ==> m.ids[h] < m.next_id,
        m.next_id < u64::MAX,
    ensures
        m.ids.contains_key(handle) ==> m.id_of(handle) == m.ids[handle] && m.named(handle) == m,
        !m.ids.contains_key(handle) ==> {
            let r = m.named(handle);
            &&& r.ids.contains_key(handle)
            &&& r.ids[handle] == m.id_of(handle)
            &&& r.next_id == m.next_id + 1
            &&& m.ids.contains_key(other) ==> r.ids.contains_key(other) && r.ids[other]
                == m.ids[other] && r.ids[other] != r.ids[handle]
            &&& r.toplevels == m.toplevels
            &&& r.pending == m.pending
            &&& r.events == m.events
        },
        m.named(handle).id_of(handle) == m.id_of(handle),
{
}

/// What is said of a toplevel is remembered, each thing by itself, and neither applies
/// nor is reported until the compositor is done.
pub proof fn what_is_said_waits(
    m: WlrModel,
    handle: u32,
    event: ToplevelEvent,
    procs: Seq<(u32, CachedProcessInfo)>,
    order: ByteOrder,
    other: u64,
)
    requires
        event is Title || event is AppId || event is State,
    ensures
        ({
            let r = m.after(handle, event, procs, order);
            let id = m.id_of(handle);
            let was = m.pending_of(id);
            let now = r.pending_of(id);
            &&& r.toplevels == m.toplevels
            &&& r.events == m.events
            &&& r.cache == m.cache
            &&& r.id_of(handle) == id
            &&& other != id ==> r.pending_of(other) == m.pending_of(other)
            &&& event matches ToplevelEvent::Title(t) ==> now == (TopModel { title: t@, ..was })
            &&& event matches ToplevelEvent::AppId(a) ==> now == (TopModel { app_id: a@, ..was })
            &&& event matches ToplevelEvent::State(raw) ==> now == (TopModel {
                is_activated: words_of(raw@, order).contains(2u32),
                is_fullscreen: words_of(raw@, order).contains(3u32),
                ..was
            })
        }),
{
}

/// When the compositor is done, what was said of a toplevel applies. It is reported
/// exactly where the toplevel has the focus, and either had not or became fullscreen
/// or ceased to be; under its ID, title and application, with its process where that
/// is known.
pub proof fn done_applies_what_was_said(
    m: WlrModel,
    handle: u32,
    procs: Seq<(u32, CachedProcessInfo)>,
    order: ByteOrder,
    other: u64,
)
    requires
        m.ids.contains_key(handle),
    ensures
        ({
            let r = m.after(handle, ToplevelEvent::Done, procs, order);
            let id = m.ids[handle];
            let p = m.pending[id];
            let was_active = m.toplevels.contains_key(id) && m.toplevels[id].is_activated;
            let was_full = m.toplevels.contains_key(id) && m.toplevels[id].is_fullscreen;
            let news = p.is_activated && (!was_active || p.is_fullscreen != was_full);
            &&& !m.pending.contains_key(id) ==> r == m
            &&& m.pending.contains_key(id) ==> {
                &&& r.toplevels.contains_key(id)
                &&& r.toplevels[id] == p
                &&& !r.pending.contains_key(id)
                &&& r.ids == m.ids
                &&& other != id ==> (r.toplevels.contains_key(other) <==> m.toplevels.contains_key(
                    other,
                )) && r.toplevels[other] == m.toplevels[other]
                &&& other != id ==> (r.pending.contains_key(other) <==> m.pending.contains_key(
                    other,
                )) && r.pending[other] == m.pending[other]
                &&& !news ==> r.events == m.events && r.cache == m.cache
                &&& news ==> r.events.len() == m.events.len() + 1 && m.events.is_prefix_of(r.events)
                &&& news ==> (r.events.last() matches EventModel::FocusChanged(w) && {
                    &&& w.window_id == id
                    &&& w.title == Some(p.title)
                    &&& w.app_id == Some(p.app_id)
                    &&& w.wm_class == Some(p.app_id)
                    &&& w.is_fullscreen == p.is_fullscreen
                    &&& process_of(p.app_id, m.cache, procs) is None ==> w.pid is None
                        && w.executable is None
                    &&& process_of(p.app_id, m.cache, procs) matches Some(q) ==> w.pid == Some(
                        q.pid,
                    ) && w.executable == Some(q.info.exe) && w.cmdline == q.info.cmdline
                })
            }
        }),
{
}

/// A focus is reported once: saying the same again changes nothing that is reported.
pub proof fn the_same_focus_is_not_reported_again(
    m: WlrModel,
    id: u64,
    procs: Seq<(u32, CachedProcessInfo)>,
)
    requires
        m.pending.contains_key(id),
    ensures
        m.applied(id, procs).said(id, m.pending[id]).applied(id, procs).events == m.applied(
            id,
            procs,
        ).events,
{
}

/// A toplevel that was closed is reported closed under its ID, and nothing of it is
/// left; the others are left alone.
pub proof fn closed_toplevels_are_forgotten(
    m: WlrModel,
    handle: u32,
    procs: Seq<(u32, CachedProcessInfo)>,
    order: ByteOrder,
    other: u64,
    other_handle: u32,
)
    requires
        m.ids.contains_key(handle),
    ensures
        ({
            let r = m.after(handle, ToplevelEvent::Closed, procs, order);
            let id = m.ids[handle];
            &&& r.events == m.events.push(EventModel::WindowClosed(id))
            &&& !r.toplevels.contains_key(id)
            &&& !r.pending.contains_key(id)
            &&& !r.ids.contains_key(handle)
            &&& r.next_id == m.next_id
            &&& m.toplevels.contains_key(id) ==> !r.cache.contains_key(m.toplevels[id].app_id)
            &&& !m.toplevels.contains_key(id) ==> r.cache == m.cache
            &&& other != id ==> (r.toplevels.contains_key(other) <==> m.toplevels.contains_key(
                other,
            )) && r.toplevels[other] == m.toplevels[other]
            &&& other_handle != handle ==> (r.ids.contains_key(other_handle)
                <==> m.ids.contains_key(other_handle)) && r.ids[other_handle]
                == m.ids[other_handle]
        }),
{
}

/// The process of an application is the first whose name is its id, where case does
/// not count; what is cached counts before that, and an application without an id has
/// none.
pub proof fn processes_are_found_by_name(
    app_id: Seq<char>,
    cache: Map<Seq<char>, PidModel>,
    procs: Seq<(u32, CachedProcessInfo)>,
)
    ensures
        app_id.len() == 0 ==> process_of(app_id, cache, procs) is None,
        app_id.len() > 0 && cache.contains_key(app_id) ==> process_of(app_id, cache, procs) == Some(
            cache[app_id],
        ),
        app_id.len() > 0 && !cache.contains_key(app_id) ==> match process_of(app_id, cache, procs) {
            Some(p) => exists|i: int|
                0 <= i < procs.len() && (#[trigger] procs[i]).0 == p.pid && procs[i].1@ == p.info
                    && lowercase(procs[i].1.exe@) == lowercase(app_id) && forall|j: int|
                    0 <= j < i ==> lowercase((#[trigger] procs[j]).1.exe@) != lowercase(app_id),
            None => forall|i: int|
                0 <= i < procs.len() ==> lowercase((#[trigger] procs[i]).1.exe@) != lowercase(
                    app_id,
                ),
        },
{
    let names = folded(procs);
    let name = lowercase(app_id);
    lemma_named_process(name, names);
    if app_id.len() > 0 && !cache.contains_key(app_id) {
        match named_process(name, names) {
            Some(i) => {
                assert(names[i].1 == lowercase(procs[i].1.exe@));
                assert(procs[i].0 == process_of(app_id, cache, procs)->0.pid);
                assert forall|j: int| 0 <= j < i implies lowercase((#[trigger] procs[j]).1.exe@)
                    != lowercase(app_id) by {
                    assert(names[j].1 == lowercase(procs[j].1.exe@));
                }
            },
            None => {
                assert forall|i: int| 0 <= i < procs.len() implies lowercase(
                    (#[trigger] procs[i]).1.exe@,
                ) != lowercase(app_id) by {
                    assert(names[i].1 == lowercase(procs[i].1.exe@));
                }
            },
        }
    }
}

proof fn lemma_named_process(name: Seq<char>, names: Seq<(u32, Seq<char>)>)
    ensures
        match named_process(name, names) {
            Some(i) => 0 <= i < names.len() && names[i].1 == name && forall|j: int|
                0 <= j < i ==> (#[trigger] names[j]).1 != name,
            None => forall|i: int| 0 <= i < names.len() ==> (#[trigger] names[i]).1 != name,
        },
    decreases names.len(),
{
    if names.len() > 0 {
        let before = names.drop_last();
        lemma_named_process(name, before);
        match named_process(name, before) {
            Some(i) => {
                assert(names[i] == before[i]);
                assert forall|j: int| 0 <= j < i implies (#[trigger] names[j]).1 != name by {
                    assert(before[j] == names[j]);
                }
            },
            None => {
                assert forall|j: int| 0 <= j < before.len() implies (#[trigger] names[j]).1
                    != name by {
                    assert(before[j] == names[j]);
                }
            },
        }
    }
}

} // verus!
