//! Tracked applications.
use vstd::prelude::*;

use crate::config::{PolicyModel, ResolvedPolicy};
use crate::desktop::window::WindowInfo;
use crate::state::machine::AppState;
use crate::state::process_set::{without_pids, ProcessSet};
use crate::system::apply::pids_of;
use crate::system::process::{ProcessHandle, ProcessTable};
use crate::text::{
    ascii_lowercase, cat2, clone_opt, decimal, format_u64, same_text, to_ascii_lowercase,
};
use crate::time::{elapsed, later, span, Nanos};

verus! {

/// Unique identifier for a tracked application.
///
/// The same program can present itself under different capitalisations, so
/// identity is held case-insensitively in `key`, while `display` preserves the
/// spelling the desktop used. Case folding is ASCII-only: rule matching and the
/// protection deny-list compare in the same way.
#[derive(Debug)]
pub struct AppId {
    key: String,
    display: String,
}

impl View for AppId {
    type V = Seq<char>;

    /// The name as the desktop spelled it.
    closed spec fn view(&self) -> Seq<char> {
        self.display@
    }
}

/// Whether an optional name is there and not empty.
pub open spec fn named(s: Option<String>) -> bool {
    s is Some && s->0@.len() > 0
}

/// The name of the application that a window belongs to.
pub open spec fn window_app(w: WindowInfo) -> Seq<char> {
    if named(w.wm_class) {
        w.wm_class->0@
    } else if named(w.app_id) {
        w.app_id->0@
    } else if named(w.executable) {
        w.executable->0@
    } else {
        "window-"@ + decimal(w.window_id as nat)
    }
}

fn present(s: &Option<String>) -> (r: Option<&String>)
    ensures
        match r {
            Some(t) => named(*s) && *t == s->0,
            None => !named(*s),
        },
{
    match s {
        Some(t) => if t.as_str().is_empty() {
            None
        } else {
            Some(t)
        },
        None => None,
    }
}

impl AppId {
    /// The key is the folded name.
    #[verifier::type_invariant]
    spec fn inv(self) -> bool {
        self.key@ == ascii_lowercase(self.display@)
    }

    /// Derive AppId from window info. Uses wm_class > app_id > executable >
    /// window_id.
    pub fn from_window(info: &WindowInfo) -> (r: Self)
        ensures
            r@ == window_app(*info),
    {
        let display = match present(&info.wm_class) {
            Some(s) => s.clone(),
            None => match present(&info.app_id) {
                Some(s) => s.clone(),
                None => match present(&info.executable) {
                    Some(s) => s.clone(),
                    None => {
                        let n = format_u64(info.window_id);
                        cat2("window-", &n)
                    },
                },
            },
        };
        AppId::new(display)
    }

    /// Build an AppId from an explicit name, e.g. one supplied over IPC.
    pub fn new(display: String) -> (r: Self)
        ensures
            r@ == display@,
    {
        let key = to_ascii_lowercase(&display);
        AppId { key, display }
    }

    /// The name as the desktop spelled it.
    pub fn as_str(&self) -> (r: &str)
        ensures
            r@ == self@,
    {
        &self.display
    }

    /// The case-folded identity used for lookup and comparison.
    pub fn key(&self) -> (r: &str)
        ensures
            r@ == ascii_lowercase(self@),
    {
        proof {
            use_type_invariant(self);
        }
        &self.key
    }

    /// Whether two ids name the same application.
    pub fn same_app(&self, other: &AppId) -> (r: bool)
        ensures
            r == (ascii_lowercase(self@) == ascii_lowercase(other@)),
    {
        same_text(self.key(), other.key())
    }

    /// A copy of the id.
    pub fn copy(&self) -> (r: Self)
        ensures
            r@ == self@,
    {
        AppId::new(self.display.clone())
    }
}

/// Differing case does not make another application.
pub proof fn identity_ignores_case(a: Seq<char>, b: Seq<char>)
    requires
        ascii_lowercase(a) == b,
    ensures
        ascii_lowercase(a) == ascii_lowercase(b),
{
    crate::text::lowercase_idempotent(a);
}

/// The timer of the periodic wake-ups of a frozen application.
#[derive(Clone, Copy, Debug, PartialEq, Eq, Structural)]
pub struct WakeTimer {
    /// When it fires.
    pub due: Nanos,
    /// Whether the application then goes back to sleep; else it is woken.
    pub sleep: bool,
}

/// When a wake timer fires.
pub open spec fn wake_due(timer: Option<WakeTimer>) -> Option<Nanos> {
    match timer {
        Some(t) => Some(t.due),
        None => None,
    }
}

/// What is known of a tracked application.
pub ghost struct AppModel {
    /// Its name, as the desktop spelled it.
    pub name: Seq<char>,
    pub state: AppState,
    /// The processes that own its windows.
    pub roots: Seq<ProcessHandle>,
    /// Whether it ever owned a process.
    pub populated: bool,
    pub window_ids: Seq<u64>,
    pub window: WindowInfo,
    pub policy: PolicyModel,
    pub cgroup: Option<String>,
    /// When it entered its state.
    pub state_since: Nanos,
    /// When it was last active.
    pub last_active: Nanos,
    /// When the suspend timer fires.
    pub suspend_timer: Option<Nanos>,
    /// The timer of its wake-ups.
    pub maintenance_timer: Option<WakeTimer>,
}

impl AppModel {
    /// In state `state` from `now` on.
    pub open spec fn in_state(self, state: AppState, now: Nanos) -> AppModel {
        AppModel {
            state,
            state_since: now,
            last_active: if state is Active {
                now
            } else {
                self.last_active
            },
            ..self
        }
    }

    /// Without timers.
    pub open spec fn without_timers(self) -> AppModel {
        AppModel { suspend_timer: None, maintenance_timer: None, ..self }
    }

    /// With the timers that are due at `now` switched off.
    pub open spec fn timers_taken(self, now: Nanos) -> AppModel {
        AppModel {
            suspend_timer: if due(self.suspend_timer, now) {
                None
            } else {
                self.suspend_timer
            },
            maintenance_timer: if due(wake_due(self.maintenance_timer), now) {
                None
            } else {
                self.maintenance_timer
            },
            ..self
        }
    }

    /// With the suspend timer running where it is in the background and managed.
    pub open spec fn started(self, now: Nanos) -> AppModel {
        if self.state is Background && !(self.policy.action is Ignore) {
            AppModel { suspend_timer: Some(later(now, self.policy.suspend_delay)), ..self }
        } else {
            self
        }
    }

    /// In the background without timers, where it was suspended.
    pub open spec fn laid_off(self, now: Nanos) -> AppModel {
        if self.state is Frozen || self.state is Throttled {
            self.in_state(AppState::Background, now).without_timers()
        } else {
            self
        }
    }

    /// With a new policy. In the background the suspend timer follows it: it is
    /// off where the application is not managed any more, and starts anew where
    /// it was managed and still is.
    pub open spec fn rematched(self, policy: PolicyModel, now: Nanos) -> AppModel {
        AppModel {
            policy,
            suspend_timer: if !(self.state is Background) {
                self.suspend_timer
            } else if policy.action is Ignore {
                None
            } else if !(self.policy.action is Ignore) {
                Some(later(now, policy.suspend_delay))
            } else {
                self.suspend_timer
            },
            ..self
        }
    }

    /// Whether all its processes have exited: it had some, and has none.
    pub open spec fn defunct(self) -> bool {
        self.roots.len() == 0 && self.populated
    }

    /// Whether it was active less than its grace period ago.
    pub open spec fn in_grace(self, now: Nanos) -> bool {
        span(self.last_active, now) < self.policy.resume_grace
    }

    /// With one more window.
    pub open spec fn with_window(self, id: u64) -> AppModel {
        AppModel {
            window_ids: if self.window_ids.contains(id) {
                self.window_ids
            } else {
                self.window_ids.push(id)
            },
            ..self
        }
    }

    /// With one window less.
    pub open spec fn without_window(self, id: u64) -> AppModel {
        AppModel { window_ids: ids_without(self.window_ids, id), ..self }
    }

    /// With the process that carries `pid` among its roots, if there is one.
    pub open spec fn with_pid(self, pid: u32, table: ProcessTable) -> AppModel {
        match table.handle_of(pid) {
            Some(h) => AppModel {
                roots: if self.roots.contains(h) {
                    self.roots
                } else {
                    self.roots.push(h)
                },
                populated: true,
                ..self
            },
            None => self,
        }
    }

    /// Without the processes whose PID is in `pids`.
    pub open spec fn without_procs(self, pids: Seq<u32>) -> AppModel {
        AppModel { roots: without_pids(self.roots, pids), ..self }
    }
}

/// Whether a timer is due.
pub open spec fn due(timer: Option<Nanos>, now: Nanos) -> bool {
    timer is Some && timer->0 <= now
}

/// A list of windows without `id`.
pub open spec fn ids_without(ids: Seq<u64>, id: u64) -> Seq<u64> {
    ids.filter(|w: u64| w != id)
}

/// A list of windows without `id` does not hold it.
pub proof fn lemma_ids_without(ids: Seq<u64>, id: u64)
    ensures
        !ids_without(ids, id).contains(id),
    decreases ids.len(),
{
    reveal(Seq::filter);
    if ids.len() > 0 {
        let before = ids.drop_last();
        lemma_ids_without(before, id);
        if ids.last() != id {
            vstd::seq_lib::lemma_seq_contains_after_push(ids_without(before, id), ids.last(), id);
        }
    }
}

/// A newly tracked application.
pub open spec fn fresh_app(
    name: Seq<char>,
    window: WindowInfo,
    policy: PolicyModel,
    table: ProcessTable,
    now: Nanos,
) -> AppModel {
    let bare = AppModel {
        name,
        state: AppState::Active,
        roots: Seq::empty(),
        populated: false,
        window_ids: seq![window.window_id],
        window,
        policy,
        cgroup: None,
        state_since: now,
        last_active: now,
        suspend_timer: None,
        maintenance_timer: None,
    };
    match window.pid {
        Some(pid) => bare.with_pid(pid, table),
        None => bare,
    }
}

/// Tracked application entry in the registry.
#[derive(Debug)]
pub struct AppEntry {
    app_id: AppId,
    state: AppState,
    /// Processes that own this application's windows: not the full tree, which
    /// the freeze journal records.
    roots: ProcessSet,
    window_ids: Vec<u64>,
    window_info: WindowInfo,
    policy: ResolvedPolicy,
    cgroup_path: Option<String>,
    state_since: Nanos,
    last_active: Nanos,
    suspend_timer: Option<Nanos>,
    maintenance_timer: Option<WakeTimer>,
}

impl View for AppEntry {
    type V = AppModel;

    closed spec fn view(&self) -> AppModel {
        AppModel {
            name: self.app_id@,
            state: self.state,
            roots: self.roots@,
            populated: self.roots.ever_populated(),
            window_ids: self.window_ids@,
            window: self.window_info,
            policy: self.policy@,
            cgroup: self.cgroup_path,
            state_since: self.state_since,
            last_active: self.last_active,
            suspend_timer: self.suspend_timer,
            maintenance_timer: self.maintenance_timer,
        }
    }
}

fn contains_u64(ids: &Vec<u64>, id: u64) -> (r: bool)
    ensures
        r == ids@.contains(id),
{
    let mut i: usize = 0;
    while i < ids.len()
        invariant
            i <= ids@.len(),
            forall|j: int| 0 <= j < i ==> ids@[j] != id,
        decreases ids@.len() - i,
    {
        if ids[i] == id {
            return true;
        }
        i = i + 1;
    }
    false
}

impl AppEntry {
    /// The processes are well-formed and no window occurs twice.
    pub closed spec fn wf(&self) -> bool {
        &&& self.roots.wf()
        &&& self.window_ids@.no_duplicates()
    }

    /// Starts tracking an application by its window.
    ///
    /// A window whose PID cannot be identified still deserves tracking: it
    /// simply owns no process that would be signalled.
    pub fn new(
        app_id: AppId,
        window_info: WindowInfo,
        policy: ResolvedPolicy,
        table: &ProcessTable,
        now: Nanos,
    ) -> (r: Self)
        ensures
            r.wf(),
            r@ == fresh_app(app_id@, window_info, policy@, *table, now),
    {
        let mut roots = ProcessSet::default();
        if let Some(pid) = window_info.pid {
            let _ = roots.insert_pid(pid, table);
        }
        let window_id = window_info.window_id;
        let window_ids: Vec<u64> = vec![window_id];
        let r = AppEntry {
            app_id,
            state: AppState::Active,
            roots,
            window_ids,
            window_info,
            policy,
            cgroup_path: None,
            state_since: now,
            last_active: now,
            suspend_timer: None,
            maintenance_timer: None,
        };
        proof {
            assert(r@.window_ids =~= seq![window_id]);
            assert(r.window_ids@.no_duplicates());
            assert(r@.roots =~= fresh_app(app_id@, window_info, policy@, *table, now).roots);
        }
        r
    }

    // --- Read-only accessors ---

    pub fn app_id(&self) -> (r: &AppId)
        ensures
            r@ == self@.name,
    {
        &self.app_id
    }

    pub fn state(&self) -> (r: AppState)
        ensures
            r == self@.state,
    {
        self.state
    }

    pub fn state_since(&self) -> (r: Nanos)
        ensures
            r == self@.state_since,
    {
        self.state_since
    }

    /// PIDs of the window-owning processes.
    pub fn pids(&self) -> (r: Vec<u32>)
        ensures
            r@ == pids_of(self@.roots),
    {
        self.roots.pids()
    }

    /// Identities of the window-owning processes.
    pub fn roots(&self) -> (r: &ProcessSet)
        ensures
            r@ == self@.roots,
            r.ever_populated() == self@.populated,
            self.wf() ==> r.wf(),
    {
        &self.roots
    }

    pub fn policy(&self) -> (r: &ResolvedPolicy)
        ensures
            r@ == self@.policy,
    {
        &self.policy
    }

    pub fn window_info(&self) -> (r: &WindowInfo)
        ensures
            *r == self@.window,
    {
        &self.window_info
    }

    pub fn window_ids(&self) -> (r: &Vec<u64>)
        ensures
            r@ == self@.window_ids,
    {
        &self.window_ids
    }

    /// A copy of the cgroup path.
    pub fn cgroup_path_buf(&self) -> (r: Option<String>)
        ensures
            r == self@.cgroup,
    {
        clone_opt(&self.cgroup_path)
    }

    /// The cgroup path, if set.
    pub fn cgroup_path_ref(&self) -> (r: Option<&str>)
        ensures
            match r {
                Some(p) => self@.cgroup is Some && self@.cgroup->0@ == p@,
                None => self@.cgroup is None,
            },
    {
        match &self.cgroup_path {
            Some(p) => Some(p.as_str()),
            None => None,
        }
    }

    /// When the suspend timer fires, if it runs.
    pub fn suspend_timer(&self) -> (r: Option<Nanos>)
        ensures
            r == self@.suspend_timer,
    {
        self.suspend_timer
    }

    /// The timer of the wake-ups, if it runs.
    pub fn maintenance_timer(&self) -> (r: Option<WakeTimer>)
        ensures
            r == self@.maintenance_timer,
    {
        self.maintenance_timer
    }

    // --- Mutating methods ---

    /// Record a newly seen window-owning PID, capturing its identity; `None` if
    /// the process could not be identified.
    pub fn add_pid(&mut self, pid: u32, table: &ProcessTable) -> (r: Option<ProcessHandle>)
        requires
            old(self).wf(),
        ensures
            final(self).wf(),
            final(self)@ == old(self)@.with_pid(pid, *table),
            r == table.handle_of(pid),
    {
        let r = self.roots.insert_pid(pid, table);
        proof {
            assert(self@.roots =~= old(self)@.with_pid(pid, *table).roots);
        }
        r
    }

    pub fn contains_pid(&self, pid: u32) -> (r: bool)
        ensures
            r == pids_of(self@.roots).contains(pid),
    {
        self.roots.contains_pid(pid)
    }

    /// Drops the PIDs named in `pids`.
    pub fn remove_pids(&mut self, pids: &Vec<u32>)
        requires
            old(self).wf(),
        ensures
            final(self).wf(),
            final(self)@ == old(self)@.without_procs(pids@),
    {
        self.roots.remove_pids(pids);
    }

    /// Whether every process this application ever owned has exited.
    ///
    /// False for an entry that never learned a PID: that is an identification
    /// gap, not a dead application.
    pub fn is_defunct(&self) -> (r: bool)
        ensures
            r == self@.defunct(),
    {
        self.roots.is_empty() && self.roots.had_live_procs()
    }

    pub fn update_window_info(&mut self, info: WindowInfo)
        requires
            old(self).wf(),
        ensures
            final(self).wf(),
            final(self)@ == (AppModel { window: info, ..old(self)@ }),
    {
        self.window_info = info;
    }

    /// Arms the suspend timer, in place of one that runs.
    pub fn set_suspend_timer(&mut self, due: Nanos)
        requires
            old(self).wf(),
        ensures
            final(self).wf(),
            final(self)@ == (AppModel { suspend_timer: Some(due), ..old(self)@ }),
    {
        self.suspend_timer = Some(due);
    }

    /// Arms the maintenance timer, in place of one that runs.
    pub fn set_maintenance_timer(&mut self, timer: WakeTimer)
        requires
            old(self).wf(),
        ensures
            final(self).wf(),
            final(self)@ == (AppModel { maintenance_timer: Some(timer), ..old(self)@ }),
    {
        self.maintenance_timer = Some(timer);
    }

    pub fn set_cgroup_path(&mut self, path: String)
        requires
            old(self).wf(),
        ensures
            final(self).wf(),
            final(self)@ == (AppModel { cgroup: Some(path), ..old(self)@ }),
    {
        self.cgroup_path = Some(path);
    }

    pub fn set_policy(&mut self, policy: ResolvedPolicy)
        requires
            old(self).wf(),
        ensures
            final(self).wf(),
            final(self)@ == (AppModel { policy: policy@, ..old(self)@ }),
    {
        self.policy = policy;
    }

    /// Restarts the time spent in the current state.
    pub fn reset_state_since(&mut self, now: Nanos)
        requires
            old(self).wf(),
        ensures
            final(self).wf(),
            final(self)@ == (AppModel { state_since: now, ..old(self)@ }),
    {
        self.state_since = now;
    }

    /// Update state and record the time.
    pub fn set_state(&mut self, new_state: AppState, now: Nanos)
        requires
            old(self).wf(),
        ensures
            final(self).wf(),
            final(self)@ == old(self)@.in_state(new_state, now),
    {
        if new_state == AppState::Active {
            self.last_active = now;
        }
        self.state = new_state;
        self.state_since = now;
    }

    /// Cancel any pending suspend timer.
    pub fn cancel_suspend_timer(&mut self)
        requires
            old(self).wf(),
        ensures
            final(self).wf(),
            final(self)@ == (AppModel { suspend_timer: None, ..old(self)@ }),
    {
        self.suspend_timer = None;
    }

    /// Cancel the maintenance timer.
    pub fn cancel_maintenance_timer(&mut self)
        requires
            old(self).wf(),
        ensures
            final(self).wf(),
            final(self)@ == (AppModel { maintenance_timer: None, ..old(self)@ }),
    {
        self.maintenance_timer = None;
    }

    /// Cancel all timers.
    pub fn cancel_all_timers(&mut self)
        requires
            old(self).wf(),
        ensures
            final(self).wf(),
            final(self)@ == old(self)@.without_timers(),
    {
        self.suspend_timer = None;
        self.maintenance_timer = None;
    }

    /// Whether the grace period after the last activity has not expired yet.
    pub fn in_resume_grace(&self, now: Nanos) -> (r: bool)
        ensures
            r == self@.in_grace(now),
    {
        elapsed(self.last_active, now) < self.policy.resume_grace
    }

    /// Whether this app has a given window.
    pub fn has_window(&self, window_id: u64) -> (r: bool)
        ensures
            r == self@.window_ids.contains(window_id),
    {
        contains_u64(&self.window_ids, window_id)
    }

    /// Whether this app has the given window and no other.
    pub fn closes_with(&self, window_id: u64) -> (r: bool)
        ensures
            r == (self@.window_ids == seq![window_id]),
    {
        let r = self.window_ids.len() == 1 && self.window_ids[0] == window_id;
        proof {
            if r {
                assert(self@.window_ids =~= seq![window_id]);
            }
        }
        r
    }

    /// Add a window to this app.
    pub fn add_window(&mut self, window_id: u64)
        requires
            old(self).wf(),
        ensures
            final(self).wf(),
            final(self)@ == old(self)@.with_window(window_id),
    {
        if !contains_u64(&self.window_ids, window_id) {
            self.window_ids.push(window_id);
        }
        proof {
            assert(self@.window_ids =~= old(self)@.with_window(window_id).window_ids);
        }
    }

    /// Remove a window. Returns true if no windows remain.
    pub fn remove_window(&mut self, window_id: u64) -> (r: bool)
        requires
            old(self).wf(),
        ensures
            final(self).wf(),
            final(self)@ == old(self)@.without_window(window_id),
            r == (final(self)@.window_ids.len() == 0),
    {
        let ghost before = self.window_ids@;
        let mut kept: Vec<u64> = Vec::new();
        let mut i: usize = 0;
        proof {
            reveal(Seq::filter);
            assert(kept@ =~= ids_without(before.take(0), window_id));
        }
        while i < self.window_ids.len()
            invariant
                i <= before.len(),
                self.window_ids@ == before,
                before.no_duplicates(),
                kept@ == ids_without(before.take(i as int), window_id),
                kept@.no_duplicates(),
                forall|x: u64| #[trigger] kept@.contains(x) ==> before.take(i as int).contains(x),
            decreases before.len() - i,
        {
            let ghost had = kept@;
            let ghost x0 = before[i as int];
            proof {
                reveal(Seq::filter);
                assert(before.take(i + 1).drop_last() =~= before.take(i as int));
                assert(before.take(i + 1) =~= before.take(i as int).push(x0));
                assert(!before.take(i as int).contains(x0)) by {
                    if before.take(i as int).contains(x0) {
                        let m = choose|m: int| 0 <= m < i && before.take(i as int)[m] == x0;
                        assert(before[m] == before[i as int]);
                    }
                }
                assert(!had.contains(x0));
                assert forall|x: u64| #[trigger] before.take(i + 1).contains(x) <==> before.take(
                    i as int,
                ).contains(x) || x == x0 by {
                    vstd::seq_lib::lemma_seq_contains_after_push(before.take(i as int), x0, x);
                }
            }
            if self.window_ids[i] != window_id {
                kept.push(self.window_ids[i]);
                proof {
                    assert forall|x: u64| #[trigger] kept@.contains(x) implies before.take(
                        i + 1,
                    ).contains(x) by {
                        vstd::seq_lib::lemma_seq_contains_after_push(had, x0, x);
                        assert(had.contains(x) || x == x0);
                    }
                    assert(kept@.no_duplicates());
                }
            }
            i = i + 1;
        }
        proof {
            assert(before.take(before.len() as int) =~= before);
        }
        let empty = kept.len() == 0;
        self.window_ids = kept;
        empty
    }
}

/// A window belongs to the application that its class names; without a class, to the
/// one of its application id; without either, to its executable. A window without any
/// name is an application of its own.
pub proof fn window_names_its_application(w: WindowInfo, other: WindowInfo)
    ensures
        w.wm_class matches Some(c) ==> c@.len() > 0 ==> window_app(w) == c@,
        !named(w.wm_class) ==> (w.app_id matches Some(a) ==> a@.len() > 0 ==> window_app(w) == a@),
        !named(w.wm_class) && !named(w.app_id) ==> (w.executable matches Some(e) ==> e@.len() > 0
            ==> window_app(w) == e@),
        !named(w.wm_class) && !named(w.app_id) && !named(w.executable) && !named(other.wm_class)
            && !named(other.app_id) && !named(other.executable) && w.window_id != other.window_id
            ==> window_app(w) != window_app(other),
        window_app(w).len() > 0,
{
    crate::text::decimal_round_trip(w.window_id as nat);
    crate::text::decimal_round_trip(other.window_id as nat);
    let prefix = "window-"@;
    let a = prefix + decimal(w.window_id as nat);
    let b = prefix + decimal(other.window_id as nat);
    assert(a.skip(prefix.len() as int) =~= decimal(w.window_id as nat));
    assert(b.skip(prefix.len() as int) =~= decimal(other.window_id as nat));
    assert(decimal(w.window_id as nat).len() > 0);
}

/// An empty name is no name.
pub proof fn an_empty_name_is_none(s: Option<String>)
    ensures
        s is None ==> !named(s),
        s matches Some(t) ==> (named(s) <==> t@.len() > 0),
{
}

/// Entering a state is dated; only becoming active counts as activity. Nothing else of
/// the application changes.
pub proof fn entering_a_state_is_dated(a: AppModel, state: AppState, now: Nanos)
    ensures
        ({
            let b = a.in_state(state, now);
            &&& b.state == state
            &&& b.state_since == now
            &&& state is Active ==> b.last_active == now
            &&& !(state is Active) ==> b.last_active == a.last_active
            &&& b == (AppModel {
                state: b.state,
                state_since: b.state_since,
                last_active: b.last_active,
                ..a
            })
        }),
{
}

/// An application learns the process that carries a PID, once, and forgets none; from
/// then on it counts as having owned one.
pub proof fn learning_a_process_keeps_the_others(
    a: AppModel,
    pid: u32,
    table: ProcessTable,
    h: ProcessHandle,
)
    ensures
        ({
            let b = a.with_pid(pid, table);
            &&& b.roots.contains(h) <==> a.roots.contains(h) || table.handle_of(pid) == Some(h)
            &&& table.handle_of(pid) is Some ==> b.populated
            &&& table.handle_of(pid) is None ==> b == a
            &&& a.roots.no_duplicates() ==> b.roots.no_duplicates()
            &&& b == (AppModel { roots: b.roots, populated: b.populated, ..a })
        }),
{
    if table.handle_of(pid) is Some {
        vstd::seq_lib::lemma_seq_contains_after_push(a.roots, table.handle_of(pid)->0, h);
    }
}

/// An application forgets exactly the processes whose PID is given. It is defunct
/// where it owned a process and owns none.
pub proof fn forgetting_processes_is_exact(a: AppModel, pids: Seq<u32>, h: ProcessHandle)
    ensures
        ({
            let b = a.without_procs(pids);
            &&& b.roots.contains(h) <==> a.roots.contains(h) && !pids.contains(h.pid)
            &&& b == (AppModel { roots: b.roots, ..a })
        }),
        a.defunct() <==> a.populated && forall|p: ProcessHandle| !#[trigger] a.roots.contains(p),
{
    crate::state::process_set::lemma_filter_contains(
        a.roots,
        |p: ProcessHandle| !pids.contains(p.pid),
    );
    if a.roots.len() > 0 {
        assert(a.roots.contains(a.roots[0]));
    }
}

/// A window is taken from an application, and no other: those it has otherwise stay,
/// in their order.
pub proof fn forgetting_a_window_keeps_the_others(a: AppModel, id: u64, other: u64)
    ensures
        ({
            let b = a.without_window(id);
            &&& b.window_ids.contains(other) <==> a.window_ids.contains(other) && other != id
            &&& b == (AppModel { window_ids: b.window_ids, ..a })
        }),
        a.with_window(id).window_ids.contains(other) <==> a.window_ids.contains(other) || other
            == id,
{
    lemma_ids_kept(a.window_ids, id, other);
    vstd::seq_lib::lemma_seq_contains_after_push(a.window_ids, id, other);
}

proof fn lemma_ids_kept(ids: Seq<u64>, id: u64, other: u64)
    ensures
        ids_without(ids, id).contains(other) <==> ids.contains(other) && other != id,
    decreases ids.len(),
{
    reveal(Seq::filter);
    if ids.len() > 0 {
        let before = ids.drop_last();
        lemma_ids_kept(before, id, other);
        assert(ids =~= before.push(ids.last()));
        vstd::seq_lib::lemma_seq_contains_after_push(before, ids.last(), other);
        vstd::seq_lib::lemma_seq_contains_after_push(ids_without(before, id), ids.last(), other);
    }
}

/// An application is in its grace period exactly until its length has passed since it
/// was last active.
pub proof fn grace_ends_after_its_length(a: AppModel, now: Nanos)
    requires
        a.last_active <= now,
    ensures
        a.in_grace(now) <==> now - a.last_active < a.policy.resume_grace,
{
}

/// A timer is due exactly from its instant on; one that is off never is.
pub proof fn timers_are_due_from_their_instant(timer: Option<Nanos>, now: Nanos)
    ensures
        timer is None ==> !due(timer, now),
        timer matches Some(t) ==> (due(timer, now) <==> now >= t),
        wake_due(None) is None,
{
}

} // verus!
