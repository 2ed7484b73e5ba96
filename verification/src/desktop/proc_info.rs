//! Process information that a focus backend attaches to a window.
use std::collections::HashMap;
use vstd::prelude::*;

use crate::desktop::window::{WindowInfo, WindowModel};
use crate::text::{clone_opt, opt_text};

verus! {

broadcast use vstd::std_specs::hash::group_hash_axioms;

/// Cached process info to avoid repeated reads.
#[derive(Debug)]
pub struct CachedProcessInfo {
    /// Executable basename.
    pub exe: String,
    /// Command line, if available.
    pub cmdline: Option<String>,
}

/// Process info as texts.
pub ghost struct InfoTexts {
    pub exe: Seq<char>,
    pub cmdline: Option<Seq<char>>,
}

impl View for CachedProcessInfo {
    type V = InfoTexts;

    open spec fn view(&self) -> InfoTexts {
        InfoTexts { exe: self.exe@, cmdline: opt_text(self.cmdline) }
    }
}

impl CachedProcessInfo {
    /// What was read of a process. An executable that cannot be read has an
    /// empty name.
    pub fn read(exe: Option<String>, cmdline: Option<String>) -> (r: Self)
        ensures
            r@.exe == (match exe {
                Some(e) => e@,
                None => Seq::empty(),
            }),
            r@.cmdline == opt_text(cmdline),
    {
        let exe = match exe {
            Some(e) => e,
            None => String::new(),
        };
        CachedProcessInfo { exe, cmdline }
    }

    /// A copy of the information.
    pub fn copy(&self) -> (r: Self)
        ensures
            r == *self,
    {
        CachedProcessInfo { exe: self.exe.clone(), cmdline: clone_opt(&self.cmdline) }
    }
}

/// A window with its process.
pub open spec fn owned_by(w: WindowModel, pid: u32, info: InfoTexts) -> WindowModel {
    WindowModel {
        pid: Some(pid),
        executable: Some(info.exe),
        cmdline: info.cmdline,
        ..w
    }
}

/// Attaches a process to a window.
pub fn set_owner(w: &mut WindowInfo, pid: u32, info: &CachedProcessInfo)
    ensures
        final(w)@ == owned_by(old(w)@, pid, info@),
{
    w.pid = Some(pid);
    w.executable = Some(info.exe.clone());
    w.cmdline = clone_opt(&info.cmdline);
}

/// What was read of processes: for each, its PID and the information.
pub type Readings = Vec<(u32, CachedProcessInfo)>;

/// What the readings say of a process: nothing is known of one that was not
/// read.
pub open spec fn reading_of(seen: Seq<(u32, CachedProcessInfo)>, pid: u32) -> InfoTexts
    decreases seen.len(),
{
    if seen.len() == 0 {
        InfoTexts { exe: Seq::empty(), cmdline: None }
    } else if seen[0].0 == pid {
        seen[0].1@
    } else {
        reading_of(seen.skip(1), pid)
    }
}

fn find_reading(seen: &Readings, pid: u32) -> (r: CachedProcessInfo)
    ensures
        r@ == reading_of(seen@, pid),
{
    let mut i: usize = 0;
    proof {
        assert(seen@.skip(0) =~= seen@);
    }
    while i < seen.len()
        invariant
            i <= seen@.len(),
            reading_of(seen@, pid) == reading_of(seen@.skip(i as int), pid),
        decreases seen@.len() - i,
    {
        if seen[i].0 == pid {
            return seen[i].1.copy();
        }
        proof {
            assert(seen@.skip(i as int).skip(1) =~= seen@.skip(i + 1));
        }
        i = i + 1;
    }
    CachedProcessInfo::read(None, None)
}

/// Process information by PID. What was read first stays.
#[derive(Debug)]
pub struct ProcessCache {
    entries: HashMap<u32, CachedProcessInfo>,
}

impl View for ProcessCache {
    type V = Map<u32, InfoTexts>;

    closed spec fn view(&self) -> Map<u32, InfoTexts> {
        self.entries@.map_values(|i: CachedProcessInfo| i@)
    }
}

/// What a cache and the readings say of a process.
pub open spec fn known_info(
    cache: Map<u32, InfoTexts>,
    seen: Seq<(u32, CachedProcessInfo)>,
    pid: u32,
) -> InfoTexts {
    if cache.contains_key(pid) {
        cache[pid]
    } else {
        reading_of(seen, pid)
    }
}

impl ProcessCache {
    /// A cache that knows nothing.
    pub fn new() -> (r: Self)
        ensures
            r@ == Map::<u32, InfoTexts>::empty(),
    {
        let r = ProcessCache { entries: HashMap::new() };
        proof {
            assert(r@ =~= Map::empty());
        }
        r
    }

    /// Whether a process is known.
    pub fn knows(&self, pid: u32) -> (r: bool)
        ensures
            r == self@.contains_key(pid),
    {
        self.entries.contains_key(&pid)
    }

    /// Attaches a process to a window, from the cache where it is known, else
    /// from the readings, and remembers it.
    pub fn attach(&mut self, w: &mut WindowInfo, pid: u32, seen: &Readings)
        ensures
            final(w)@ == owned_by(old(w)@, pid, known_info(old(self)@, seen@, pid)),
            final(self)@ == old(self)@.insert(pid, known_info(old(self)@, seen@, pid)),
    {
        let ghost m = self@;
        if let Some(info) = self.entries.get(&pid) {
            set_owner(w, pid, info);
            proof {
                assert(m.insert(pid, m[pid]) =~= m);
            }
            return;
        }
        let info = find_reading(seen, pid);
        set_owner(w, pid, &info);
        self.entries.insert(pid, info);
        proof {
            assert(self@ =~= m.insert(pid, reading_of(seen@, pid)));
        }
    }
}

/// A window gets its process: the PID, and what is known of it; the rest of it stays.
pub proof fn a_window_gets_its_process(w: WindowModel, pid: u32, info: InfoTexts)
    ensures
        ({
            let r = owned_by(w, pid, info);
            &&& r.pid == Some(pid)
            &&& r.executable == Some(info.exe)
            &&& r.cmdline == info.cmdline
            &&& r.window_id == w.window_id
            &&& r.title == w.title
            &&& r.wm_class == w.wm_class
            &&& r.app_id == w.app_id
            &&& r.is_fullscreen == w.is_fullscreen
            &&& r.desktop == w.desktop
        }),
{
}

/// What is known of a process is what is cached, else what was read of it first; of
/// one that was not read nothing is known.
pub proof fn cached_information_counts(
    cache: Map<u32, InfoTexts>,
    seen: Seq<(u32, CachedProcessInfo)>,
    pid: u32,
    k: int,
)
    ensures
        cache.contains_key(pid) ==> known_info(cache, seen, pid) == cache[pid],
        !cache.contains_key(pid) && 0 <= k < seen.len() && seen[k].0 == pid && (forall|j: int|
            0 <= j < k ==> (#[trigger] seen[j]).0 != pid) ==> known_info(cache, seen, pid)
            == seen[k].1@,
        !cache.contains_key(pid) && (forall|j: int|
            0 <= j < seen.len() ==> (#[trigger] seen[j]).0 != pid) ==> known_info(
            cache,
            seen,
            pid,
        ).exe.len() == 0 && known_info(cache, seen, pid).cmdline is None,
    decreases seen.len(),
{
    if !cache.contains_key(pid) && seen.len() > 0 && seen[0].0 != pid {
        let rest = seen.skip(1);
        cached_information_counts(cache, rest, pid, k - 1);
        if 0 <= k < seen.len() && seen[k].0 == pid && (forall|j: int|
            0 <= j < k ==> (#[trigger] seen[j]).0 != pid) {
            assert(k > 0);
            assert(rest[k - 1] == seen[k]);
            assert forall|j: int| 0 <= j < k - 1 implies (#[trigger] rest[j]).0 != pid by {
                assert(seen[j + 1].0 != pid);
            }
        }
        if forall|j: int| 0 <= j < seen.len() ==> (#[trigger] seen[j]).0 != pid {
            assert forall|j: int| 0 <= j < rest.len() implies (#[trigger] rest[j]).0 != pid by {
                assert(seen[j + 1].0 != pid);
            }
        }
    }
}

} // verus!
