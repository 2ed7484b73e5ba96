//! Record of every process the daemon has suspended.
//!
//! `SIGSTOP` is not reversible from outside the daemon: if the process that sent
//! it dies, nothing else knows the stopped processes exist. The journal is the
//! durable half of that operation. It is written **before** the first signal
//! goes out and cleared **after** the last one comes back:
//!
//! ```text
//! freeze: arm(planned) -> signal -> commit(applied)
//! thaw:   signal -> retire(thawed and gone)
//! ```
use vstd::prelude::*;

use crate::assoc::Assoc;
use crate::error::JournalError;
use crate::state::process_set::{
    contains_handle, copy_handles, dead_part, drop_pids, lemma_filter_contains, lemma_filter_step, live_part,
    split_alive, without_pids,
};
use crate::system::apply::pids_of;
use crate::system::freeze::{count_done, delivered, Delivery};
use crate::system::process::{ProcessHandle, ProcessTable};
use crate::system::{join_path, joined};
use crate::text::{clone_opt, same_text};

verus! {

/// Schema version of the journal file.
pub const JOURNAL_VERSION: u32 = 1;

/// How an application was suspended.
#[derive(Clone, Copy, Debug, PartialEq, Eq, Structural)]
pub enum FreezeMethod {
    /// cgroup v2 freezer.
    Cgroup,
    /// SIGSTOP to each process.
    Signal,
    /// Written by a newer daemon and not understood here. Recovery still resumes
    /// such entries: releasing a process that was not stopped is harmless.
    Unknown,
}

impl FreezeMethod {
    /// The name of the method in the journal's file.
    pub open spec fn text(self) -> Seq<char> {
        match self {
            FreezeMethod::Cgroup => "cgroup"@,
            FreezeMethod::Signal => "signal"@,
            FreezeMethod::Unknown => "unknown"@,
        }
    }

    /// The name of the method in the journal's file.
    pub fn name(&self) -> (r: &'static str)
        ensures
            r@ == self.text(),
    {
        match self {
            FreezeMethod::Cgroup => "cgroup",
            FreezeMethod::Signal => "signal",
            FreezeMethod::Unknown => "unknown",
        }
    }

    /// The method of a name. A name that is not known does not make the file
    /// unreadable.
    pub fn from_name(name: &str) -> (r: Self)
        ensures
            r == (if name@ == "cgroup"@ {
                FreezeMethod::Cgroup
            } else if name@ == "signal"@ {
                FreezeMethod::Signal
            } else {
                FreezeMethod::Unknown
            }),
    {
        if same_text(name, "cgroup") {
            FreezeMethod::Cgroup
        } else if same_text(name, "signal") {
            FreezeMethod::Signal
        } else {
            FreezeMethod::Unknown
        }
    }
}

/// One suspended application.
#[derive(Debug)]
pub struct JournalEntry {
    pub app_id: String,
    pub method: FreezeMethod,
    pub cgroup_path: Option<String>,
    /// The processes signalled, descendants included.
    pub procs: Vec<ProcessHandle>,
}

/// What the journal file holds.
#[derive(Debug)]
pub struct JournalFile {
    pub version: u32,
    pub entries: Vec<JournalEntry>,
}

/// The write to disk that is owed after a change.
#[derive(Clone, Copy, Debug, PartialEq, Eq, Structural)]
pub enum Pending {
    /// The file is up to date.
    Nothing,
    /// The file must be rewritten.
    Write,
    /// The file must be deleted.
    Delete,
}

/// What a journal entry says, without its key.
pub ghost struct JournalRecord {
    pub method: FreezeMethod,
    pub cgroup_path: Option<String>,
    pub procs: Seq<ProcessHandle>,
}

/// Result of releasing what a previous run left suspended.
#[derive(Clone, Copy, Debug, PartialEq, Eq, Structural)]
pub struct RecoveryReport {
    /// Processes resumed.
    pub thawed: usize,
    /// Recorded processes that had already exited.
    pub stale: usize,
    /// Recorded processes skipped because they are not ours.
    pub not_owned: usize,
}

impl Default for RecoveryReport {
    /// Nothing was found.
    fn default() -> (r: Self)
        ensures
            r == (RecoveryReport { thawed: 0, stale: 0, not_owned: 0 }),
    {
        RecoveryReport { thawed: 0, stale: 0, not_owned: 0 }
    }
}

impl RecoveryReport {
    /// Whether recovery found nothing at all to act on.
    pub fn is_empty(&self) -> (r: bool)
        ensures
            r == (self.thawed == 0 && self.stale == 0 && self.not_owned == 0),
    {
        self.thawed == 0 && self.stale == 0 && self.not_owned == 0
    }
}

impl JournalEntry {
    /// What the entry says.
    pub open spec fn record(&self) -> JournalRecord {
        JournalRecord {
            method: self.method,
            cgroup_path: self.cgroup_path,
            procs: self.procs@,
        }
    }

    /// A copy of the entry.
    pub fn copy(&self) -> (r: Self)
        ensures
            r.record() == self.record(),
            r.app_id@ == self.app_id@,
    {
        JournalEntry {
            app_id: self.app_id.clone(),
            method: self.method,
            cgroup_path: clone_opt(&self.cgroup_path),
            procs: copy_handles(&self.procs),
        }
    }
}

/// The map that a list of entries denotes: of two with one key, the later
/// counts.
pub open spec fn journal_map(entries: Seq<JournalEntry>) -> Map<Seq<char>, JournalRecord>
    decreases entries.len(),
{
    if entries.len() == 0 {
        Map::empty()
    } else {
        journal_map(entries.drop_last()).insert(entries.last().app_id@, entries.last().record())
    }
}

/// The processes recorded under `key`.
pub open spec fn procs_in(m: Map<Seq<char>, JournalRecord>, key: Seq<char>) -> Seq<ProcessHandle> {
    if m.contains_key(key) {
        m[key].procs
    } else {
        Seq::empty()
    }
}

/// The processes recorded under `keys`, key by key.
pub open spec fn listed_procs(m: Map<Seq<char>, JournalRecord>, keys: Seq<Seq<char>>) -> Seq<
    ProcessHandle,
>
    decreases keys.len(),
{
    if keys.len() == 0 {
        Seq::empty()
    } else {
        listed_procs(m, keys.drop_last()) + m[keys.last()].procs
    }
}

proof fn lemma_listed_procs(m: Map<Seq<char>, JournalRecord>, keys: Seq<Seq<char>>)
    ensures
        forall|h: ProcessHandle| #[trigger]
            listed_procs(m, keys).contains(h) <==> exists|k: Seq<char>| #[trigger]
                keys.contains(k) && m[k].procs.contains(h),
    decreases keys.len(),
{
    if keys.len() > 0 {
        let before = keys.drop_last();
        let k0 = keys.last();
        lemma_listed_procs(m, before);
        assert(keys =~= before.push(k0));
        let all = listed_procs(m, keys);
        let head = listed_procs(m, before);
        let tail = m[k0].procs;
        assert forall|h: ProcessHandle| #[trigger] all.contains(h) <==> exists|k: Seq<char>|
            #[trigger] keys.contains(k) && m[k].procs.contains(h) by {
            if all.contains(h) {
                let i = choose|i: int| 0 <= i < all.len() && all[i] == h;
                if i < head.len() {
                    assert(head[i] == h);
                    assert(head.contains(h));
                    let k = choose|k: Seq<char>| #[trigger]
                        before.contains(k) && m[k].procs.contains(h);
                    vstd::seq_lib::lemma_seq_contains_after_push(before, k0, k);
                    assert(keys.contains(k));
                } else {
                    assert(tail[i - head.len()] == h);
                    vstd::seq_lib::lemma_seq_contains_after_push(before, k0, k0);
                    assert(keys.contains(k0));
                }
            }
            if exists|k: Seq<char>| #[trigger] keys.contains(k) && m[k].procs.contains(h) {
                let k = choose|k: Seq<char>| #[trigger]
                    keys.contains(k) && m[k].procs.contains(h);
                vstd::seq_lib::lemma_seq_contains_after_push(before, k0, k);
                if before.contains(k) {
                    assert(head.contains(h));
                    let i = choose|i: int| 0 <= i < head.len() && head[i] == h;
                    assert(all[i] == h);
                } else {
                    let i = choose|i: int| 0 <= i < tail.len() && tail[i] == h;
                    assert(all[head.len() + i] == h);
                }
            }
        }
    }
}

/// Whether `h` is recorded under some key.
pub open spec fn recorded(m: Map<Seq<char>, JournalRecord>, h: ProcessHandle) -> bool {
    exists|k: Seq<char>| #[trigger] m.contains_key(k) && m[k].procs.contains(h)
}

/// `have`, with those of `planned` appended that it lacks.
pub open spec fn merged(have: Seq<ProcessHandle>, planned: Seq<ProcessHandle>) -> Seq<
    ProcessHandle,
>
    decreases planned.len(),
{
    if planned.len() == 0 {
        have
    } else {
        let before = merged(have, planned.drop_last());
        if before.contains(planned.last()) {
            before
        } else {
            before.push(planned.last())
        }
    }
}

/// The map with the processes of `key` narrowed to `procs`; a record without
/// processes is dropped.
pub open spec fn narrowed(
    m: Map<Seq<char>, JournalRecord>,
    key: Seq<char>,
    procs: Seq<ProcessHandle>,
) -> Map<Seq<char>, JournalRecord> {
    if procs.len() == 0 {
        m.remove(key)
    } else {
        m.insert(key, JournalRecord { procs, ..m[key] })
    }
}

/// The map after recording the intent to suspend `planned`.
pub open spec fn armed(
    m: Map<Seq<char>, JournalRecord>,
    key: Seq<char>,
    method: FreezeMethod,
    cgroup_path: Option<String>,
    planned: Seq<ProcessHandle>,
) -> Map<Seq<char>, JournalRecord> {
    m.insert(
        key,
        JournalRecord { method, cgroup_path, procs: merged(procs_in(m, key), planned) },
    )
}

/// The part of `procs` that stays recorded when, of `planned`, only `applied`
/// was reached.
pub open spec fn reached_part(
    procs: Seq<ProcessHandle>,
    planned: Seq<ProcessHandle>,
    applied: Seq<ProcessHandle>,
) -> Seq<ProcessHandle> {
    procs.filter(|h: ProcessHandle| applied.contains(h) || !planned.contains(h))
}

/// The map after a suspension of `planned` that reached `applied`.
pub open spec fn committed(
    m: Map<Seq<char>, JournalRecord>,
    key: Seq<char>,
    planned: Seq<ProcessHandle>,
    applied: Seq<ProcessHandle>,
) -> Map<Seq<char>, JournalRecord> {
    if m.contains_key(key) {
        narrowed(m, key, reached_part(m[key].procs, planned, applied))
    } else {
        m
    }
}

/// The map after the processes with a PID in `done` were released.
pub open spec fn retired(m: Map<Seq<char>, JournalRecord>, key: Seq<char>, done: Seq<u32>) -> Map<
    Seq<char>,
    JournalRecord,
> {
    if m.contains_key(key) {
        narrowed(m, key, without_pids(m[key].procs, done))
    } else {
        m
    }
}

/// The map without the processes that have exited.
pub open spec fn swept(m: Map<Seq<char>, JournalRecord>, table: ProcessTable) -> Map<
    Seq<char>,
    JournalRecord,
> {
    Map::new(
        |k: Seq<char>| m.contains_key(k) && live_part(m[k].procs, table).len() > 0,
        |k: Seq<char>| JournalRecord { procs: live_part(m[k].procs, table), ..m[k] },
    )
}

/// The set of suspended applications.
#[derive(Debug)]
pub struct FreezeJournal {
    path: String,
    entries: Assoc<JournalEntry>,
    pending: Pending,
}

impl View for FreezeJournal {
    type V = Map<Seq<char>, JournalRecord>;

    /// The records, by application key.
    closed spec fn view(&self) -> Map<Seq<char>, JournalRecord> {
        self.entries@.map_values(|e: JournalEntry| e.record())
    }
}

impl FreezeJournal {
    /// Every entry is filed under its own key, and a journal without a file owes
    /// no write.
    pub closed spec fn wf(&self) -> bool {
        &&& self.entries.wf()
        &&& forall|k: Seq<char>| #[trigger]
            self.entries@.contains_key(k) ==> self.entries@[k].app_id@ == k
        &&& self.path@.len() == 0 ==> self.pending is Nothing
    }

    /// Whether the journal has no file.
    pub closed spec fn in_memory(&self) -> bool {
        self.path@.len() == 0
    }

    /// The path of the file.
    pub closed spec fn file_path(&self) -> Seq<char> {
        self.path@
    }

    /// The write that is owed.
    pub closed spec fn owed(&self) -> Pending {
        self.pending
    }

    /// The write that a change owes: none where there is no file.
    pub open spec fn owes(&self, p: Pending) -> Pending {
        if self.in_memory() {
            Pending::Nothing
        } else {
            p
        }
    }

    /// The keys, in the order of the entries.
    pub closed spec fn keys(&self) -> Seq<Seq<char>> {
        self.entries.keys()
    }

    /// The key list holds exactly the recorded keys, each once.
    pub proof fn lemma_keys(&self)
        requires
            self.wf(),
        ensures
            self.keys().no_duplicates(),
            forall|k: Seq<char>| #[trigger] self@.contains_key(k) <==> self.keys().contains(k),
            self@.dom().finite(),
            self@.dom().len() == self.keys().len(),
    {
        self.entries.lemma_keys();
        assert(self@.dom() =~= self.entries@.dom());
        assert forall|k: Seq<char>| #[trigger] self@.contains_key(k) <==> self.keys().contains(
            k,
        ) by {
            assert(self@.contains_key(k) <==> self.entries@.contains_key(k));
        }
    }

    /// Path of the journal file in a user's runtime directory.
    pub fn default_path(runtime_dir: &str) -> (r: String)
        ensures
            r@ == joined(joined(runtime_dir@, "app-powerd"@), "frozen.json"@),
    {
        let dir = join_path(runtime_dir, "app-powerd");
        join_path(&dir, "frozen.json")
    }

    /// Opens the journal at `path` with the content read from it; a missing file
    /// means that nothing is suspended.
    ///
    /// A file of another schema version is an error: it may still describe
    /// stopped processes.
    pub fn load(path: String, file: Option<JournalFile>) -> (r: Result<Self, JournalError>)
        ensures
            match file {
                Some(f) => if f.version == JOURNAL_VERSION {
                    &&& r is Ok
                    &&& r->Ok_0@ == journal_map(f.entries@)
                } else {
                    &&& r is Err
                    &&& r->Err_0 == (JournalError::UnsupportedVersion {
                        path,
                        found: f.version,
                        expected: JOURNAL_VERSION,
                    })
                },
                None => r is Ok && r->Ok_0@ == Map::<Seq<char>, JournalRecord>::empty(),
            },
            match r {
                Ok(j) => j.wf() && j.file_path() == path@ && j.owed() is Nothing && j.in_memory()
                    == (path@.len() == 0),
                Err(_) => true,
            },
    {
        let mut entries: Assoc<JournalEntry> = Assoc::new();
        let ghost f0 = file;
        match file {
            Some(f) => {
                if f.version != JOURNAL_VERSION {
                    return Err(
                        JournalError::UnsupportedVersion {
                            path,
                            found: f.version,
                            expected: JOURNAL_VERSION,
                        },
                    );
                }
                let mut i: usize = 0;
                proof {
                    assert(f.entries@.take(0) =~= Seq::empty());
                    assert(entries@.map_values(|e: JournalEntry| e.record()) =~= journal_map(
                        f.entries@.take(0),
                    ));
                }
                while i < f.entries.len()
                    invariant
                        i <= f.entries@.len(),
                        entries.wf(),
                        forall|k: Seq<char>| #[trigger]
                            entries@.contains_key(k) ==> entries@[k].app_id@ == k,
                        entries@.map_values(|e: JournalEntry| e.record()) == journal_map(
                            f.entries@.take(i as int),
                        ),
                    decreases f.entries@.len() - i,
                {
                    let ghost before = entries@;
                    let entry = f.entries[i].copy();
                    let ghost e = entry;
                    entries.insert(f.entries[i].app_id.clone(), entry);
                    proof {
                        assert(f.entries@.take(i + 1).drop_last() =~= f.entries@.take(i as int));
                        let key = f.entries@[i as int].app_id@;
                        assert(before.insert(key, e).map_values(|e: JournalEntry| e.record())
                            =~= before.map_values(|e: JournalEntry| e.record()).insert(
                            key,
                            e.record(),
                        ));
                    }
                    i = i + 1;
                }
                proof {
                    assert(f.entries@.take(f.entries@.len() as int) =~= f.entries@);
                }
            },
            None => {},
        }
        let r = FreezeJournal { path, entries, pending: Pending::Nothing };
        proof {
            if f0 is None {
                assert(r@ =~= Map::empty());
            }
        }
        Ok(r)
    }

    /// An empty journal that is never written to disk.
    pub fn disabled() -> (r: Self)
        ensures
            r.wf(),
            r@ == Map::<Seq<char>, JournalRecord>::empty(),
            r.in_memory(),
            r.file_path() == Seq::<char>::empty(),
            r.owed() is Nothing,
    {
        let r = FreezeJournal {
            path: String::new(),
            entries: Assoc::new(),
            pending: Pending::Nothing,
        };
        proof {
            assert(r@ =~= Map::empty());
        }
        r
    }

    /// Whether the journal has no file.
    pub fn is_disabled(&self) -> (r: bool)
        ensures
            r == self.in_memory(),
    {
        self.path.as_str().is_empty()
    }

    /// Path of the file; empty where there is none.
    pub fn path(&self) -> (r: &str)
        ensures
            r@ == self.file_path(),
    {
        &self.path
    }

    /// Whether no application is recorded as suspended.
    pub fn is_empty(&self) -> (r: bool)
        requires
            self.wf(),
        ensures
            r == (self@.dom().len() == 0),
            r == (self@ == Map::<Seq<char>, JournalRecord>::empty()),
    {
        proof {
            self.lemma_keys();
            if self.keys().len() == 0 {
                assert(self@ =~= Map::empty());
            } else {
                assert(self.keys().contains(self.keys()[0]));
                assert(self@.contains_key(self.keys()[0]));
            }
        }
        self.entries.len() == 0
    }

    /// Number of recorded applications.
    pub fn len(&self) -> (r: usize)
        requires
            self.wf(),
        ensures
            r == self.keys().len(),
            r == self@.dom().len(),
    {
        proof {
            self.lemma_keys();
        }
        self.entries.len()
    }

    /// The entry at position `i`.
    pub fn entry_at(&self, i: usize) -> (r: &JournalEntry)
        requires
            self.wf(),
            i < self.keys().len(),
        ensures
            self@.contains_key(self.keys()[i as int]),
            r.app_id@ == self.keys()[i as int],
            r.record() == self@[self.keys()[i as int]],
    {
        self.entries.value_at(i)
    }

    /// The recorded applications; their order means nothing.
    pub fn entries(&self) -> (r: Vec<&JournalEntry>)
        requires
            self.wf(),
        ensures
            r@.len() == self.keys().len(),
            forall|i: int|
                0 <= i < r@.len() ==> (#[trigger] r@[i]).app_id@ == self.keys()[i] && r@[i].record()
                    == self@[self.keys()[i]],
    {
        let mut out: Vec<&JournalEntry> = Vec::new();
        let mut i: usize = 0;
        while i < self.entries.len()
            invariant
                i <= self.keys().len(),
                self.wf(),
                out@.len() == i,
                forall|j: int|
                    0 <= j < i ==> (#[trigger] out@[j]).app_id@ == self.keys()[j]
                        && out@[j].record() == self@[self.keys()[j]],
            decreases self.keys().len() - i,
        {
            out.push(self.entry_at(i));
            i = i + 1;
        }
        out
    }

    /// The processes recorded under `key`; empty where there is no record.
    pub fn procs_for(&self, key: &str) -> (r: Vec<ProcessHandle>)
        requires
            self.wf(),
        ensures
            r@ == procs_in(self@, key@),
    {
        match self.entries.get(key) {
            Some(entry) => copy_handles(&entry.procs),
            None => Vec::new(),
        }
    }

    /// Records an intent to suspend, **before** any signal is sent.
    ///
    /// Processes already recorded for this application are kept: a previous thaw
    /// may have failed for some of them, and they are still stopped.
    pub fn arm(
        &mut self,
        app_id: &str,
        method: FreezeMethod,
        cgroup_path: Option<String>,
        planned: &Vec<ProcessHandle>,
    )
        requires
            old(self).wf(),
        ensures
            final(self).wf(),
            final(self)@ == armed(old(self)@, app_id@, method, cgroup_path, planned@),
            final(self).owed() == old(self).owes(Pending::Write),
            final(self).file_path() == old(self).file_path(),
            final(self).in_memory() == old(self).in_memory(),
    {
        let ghost before = self@;
        let ghost have = procs_in(self@, app_id@);
        let ghost m0 = self.entries@;
        let mut procs = self.procs_for(app_id);
        let mut i: usize = 0;
        proof {
            assert(planned@.take(0) =~= Seq::empty());
        }
        while i < planned.len()
            invariant
                i <= planned@.len(),
                procs@ == merged(have, planned@.take(i as int)),
            decreases planned@.len() - i,
        {
            proof {
                assert(planned@.take(i + 1).drop_last() =~= planned@.take(i as int));
            }
            if !contains_handle(&procs, planned[i]) {
                procs.push(planned[i]);
            }
            i = i + 1;
        }
        proof {
            assert(planned@.take(planned@.len() as int) =~= planned@);
        }
        let entry = JournalEntry { app_id: app_id.to_owned(), method, cgroup_path, procs };
        let ghost e = entry;
        self.entries.insert(app_id.to_owned(), entry);
        proof {
            assert(m0.insert(app_id@, e).map_values(|e: JournalEntry| e.record()) =~= before.insert(
                app_id@,
                e.record(),
            ));
        }
        self.mark(Pending::Write);
    }

    fn mark(&mut self, p: Pending)
        requires
            old(self).wf(),
        ensures
            final(self).wf(),
            final(self)@ == old(self)@,
            final(self).keys() == old(self).keys(),
            final(self).owed() == old(self).owes(p),
            final(self).file_path() == old(self).file_path(),
            final(self).in_memory() == old(self).in_memory(),
    {
        self.pending = if self.path.as_str().is_empty() {
            Pending::Nothing
        } else {
            p
        };
    }

    fn narrow(&mut self, app_id: &str, procs: Vec<ProcessHandle>)
        requires
            old(self).wf(),
            old(self)@.contains_key(app_id@),
        ensures
            final(self).wf(),
            final(self)@ == narrowed(old(self)@, app_id@, procs@),
            final(self).owed() == old(self).owes(Pending::Write),
            final(self).file_path() == old(self).file_path(),
            final(self).in_memory() == old(self).in_memory(),
    {
        let ghost before = self@;
        let ghost m0 = self.entries@;
        let ghost kept = procs@;
        if procs.len() == 0 {
            self.entries.remove(app_id);
            proof {
                assert(self@ =~= before.remove(app_id@));
            }
        } else {
            if let Some(entry) = self.entries.get_mut(app_id) {
                entry.procs = procs;
            }
            proof {
                let rec = JournalRecord { procs: kept, ..before[app_id@] };
                assert(self@ =~= before.insert(app_id@, rec));
            }
        }
        self.mark(Pending::Write);
    }

    /// Narrows a record to the processes that were reached.
    ///
    /// Only the processes this operation intended to touch are reconsidered;
    /// what an earlier partial thaw left behind stays. An application without a
    /// record has nothing to narrow.
    pub fn commit(
        &mut self,
        app_id: &str,
        planned: &Vec<ProcessHandle>,
        applied: &Vec<ProcessHandle>,
    )
        requires
            old(self).wf(),
        ensures
            final(self).wf(),
            final(self)@ == committed(old(self)@, app_id@, planned@, applied@),
            final(self).owed() == (if old(self)@.contains_key(app_id@) {
                old(self).owes(Pending::Write)
            } else {
                old(self).owed()
            }),
            final(self).file_path() == old(self).file_path(),
            final(self).in_memory() == old(self).in_memory(),
    {
        if !self.entries.contains_key(app_id) {
            return;
        }
        let procs = self.procs_for(app_id);
        let ghost keep = |h: ProcessHandle| applied@.contains(h) || !planned@.contains(h);
        let mut kept: Vec<ProcessHandle> = Vec::new();
        let mut i: usize = 0;
        proof {
            reveal(Seq::filter);
            assert(kept@ =~= procs@.take(0).filter(keep));
        }
        while i < procs.len()
            invariant
                i <= procs@.len(),
                keep == (|h: ProcessHandle| applied@.contains(h) || !planned@.contains(h)),
                kept@ == procs@.take(i as int).filter(keep),
            decreases procs@.len() - i,
        {
            proof {
                lemma_filter_step(procs@, keep, i as int);
            }
            if contains_handle(applied, procs[i]) || !contains_handle(planned, procs[i]) {
                kept.push(procs[i]);
            }
            i = i + 1;
        }
        proof {
            assert(procs@.take(procs@.len() as int) =~= procs@);
        }
        self.narrow(app_id, kept);
    }

    /// Removes processes that no longer need releasing.
    ///
    /// Works per process: if a thaw only partially succeeded, the processes
    /// still stopped stay recorded.
    pub fn retire(&mut self, app_id: &str, done: &Vec<u32>)
        requires
            old(self).wf(),
        ensures
            final(self).wf(),
            final(self)@ == retired(old(self)@, app_id@, done@),
            final(self).owed() == (if old(self)@.contains_key(app_id@) {
                old(self).owes(Pending::Write)
            } else {
                old(self).owed()
            }),
            final(self).file_path() == old(self).file_path(),
            final(self).in_memory() == old(self).in_memory(),
    {
        if !self.entries.contains_key(app_id) {
            return;
        }
        let procs = self.procs_for(app_id);
        let kept = drop_pids(&procs, done);
        self.narrow(app_id, kept);
    }

    /// Drops processes that have exited, and entries left with none.
    ///
    /// Returns the number of entries removed; the file is rewritten where there
    /// are any.
    pub fn sweep_dead(&mut self, table: &ProcessTable) -> (r: usize)
        requires
            old(self).wf(),
        ensures
            final(self).wf(),
            final(self)@ == swept(old(self)@, *table),
            r == old(self)@.dom().len() - final(self)@.dom().len(),
            final(self).owed() == (if r > 0 {
                old(self).owes(Pending::Write)
            } else {
                old(self).owed()
            }),
            final(self).file_path() == old(self).file_path(),
            final(self).in_memory() == old(self).in_memory(),
    {
        let ghost before = self@;
        let ghost ks = self.keys();
        let n: usize = self.entries.len();
        proof {
            self.lemma_keys();
        }
        let mut fresh: Assoc<JournalEntry> = Assoc::new();
        let mut i: usize = 0;
        while i < n
            invariant
                i <= n,
                n == ks.len(),
                self.wf(),
                self@ == before,
                self.keys() == ks,
                ks.no_duplicates(),
                fresh.wf(),
                fresh.keys().len() <= i,
                forall|k: Seq<char>| #[trigger]
                    fresh@.contains_key(k) ==> fresh@[k].app_id@ == k && before.contains_key(k)
                        && fresh@[k].record() == (JournalRecord {
                        procs: live_part(before[k].procs, *table),
                        ..before[k]
                    }),
                forall|k: Seq<char>| #[trigger]
                    fresh@.contains_key(k) <==> ks.take(i as int).contains(k) && live_part(
                        before[k].procs,
                        *table,
                    ).len() > 0,
            decreases n - i,
        {
            let entry = self.entry_at(i);
            let (live, _dead) = split_alive(&entry.procs, table);
            let ghost key = ks[i as int];
            proof {
                assert(ks.take(i + 1) =~= ks.take(i as int).push(key));
                assert forall|k: Seq<char>| #[trigger] ks.take(i + 1).contains(k) <==> ks.take(
                    i as int,
                ).contains(k) || k == key by {
                    vstd::seq_lib::lemma_seq_contains_after_push(ks.take(i as int), key, k);
                }
                assert(!ks.take(i as int).contains(key)) by {
                    if ks.take(i as int).contains(key) {
                        let m = choose|m: int| 0 <= m < i && ks.take(i as int)[m] == key;
                        assert(ks[m] == ks[i as int]);
                    }
                }
            }
            if live.len() > 0 {
                let kept = JournalEntry {
                    app_id: entry.app_id.clone(),
                    method: entry.method,
                    cgroup_path: clone_opt(&entry.cgroup_path),
                    procs: live,
                };
                fresh.insert(entry.app_id.clone(), kept);
            }
            i = i + 1;
        }
        let removed: usize = n - fresh.len();
        proof {
            assert(ks.take(ks.len() as int) =~= ks);
            fresh.lemma_keys();
            self.lemma_keys();
            assert forall|k: Seq<char>| #[trigger] before.contains_key(k) <==> ks.contains(k) by {
                assert(self@.contains_key(k) <==> self.keys().contains(k));
            }
        }
        self.entries = fresh;
        proof {
            assert(self@ =~= swept(before, *table));
            assert(self@.dom() =~= fresh@.dom());
        }
        if removed > 0 {
            self.mark(Pending::Write);
        }
        removed
    }

    /// Every process recorded as suspended, entry by entry.
    pub fn all_procs(&self) -> (r: Vec<ProcessHandle>)
        requires
            self.wf(),
        ensures
            r@ == listed_procs(self@, self.keys()),
            forall|h: ProcessHandle| #[trigger] r@.contains(h) <==> recorded(self@, h),
    {
        let ghost ks = self.keys();
        let mut out: Vec<ProcessHandle> = Vec::new();
        let mut i: usize = 0;
        proof {
            assert(ks.take(0) =~= Seq::empty());
        }
        while i < self.entries.len()
            invariant
                i <= ks.len(),
                ks == self.keys(),
                self.wf(),
                out@ == listed_procs(self@, ks.take(i as int)),
            decreases ks.len() - i,
        {
            let entry = self.entry_at(i);
            let ghost start = out@;
            let mut j: usize = 0;
            proof {
                assert(start + entry.procs@.take(0) =~= start);
                assert(ks.take(i + 1).drop_last() =~= ks.take(i as int));
            }
            while j < entry.procs.len()
                invariant
                    j <= entry.procs@.len(),
                    out@ == start + entry.procs@.take(j as int),
                decreases entry.procs@.len() - j,
            {
                out.push(entry.procs[j]);
                j = j + 1;
                proof {
                    assert(out@ =~= start + entry.procs@.take(j as int));
                }
            }
            proof {
                assert(entry.procs@.take(entry.procs@.len() as int) =~= entry.procs@);
            }
            i = i + 1;
        }
        proof {
            assert(ks.take(ks.len() as int) =~= ks);
            self.lemma_keys();
            lemma_listed_procs(self@, ks);
            assert forall|h: ProcessHandle| #[trigger] out@.contains(h) <==> recorded(
                self@,
                h,
            ) by {
                if recorded(self@, h) {
                    let k = choose|k: Seq<char>| #[trigger]
                        self@.contains_key(k) && self@[k].procs.contains(h);
                    assert(ks.contains(k));
                }
            }
        }
        out
    }

    /// Forgets everything; the file is deleted.
    ///
    /// Only safe when nothing can still be stopped.
    pub fn clear(&mut self)
        requires
            old(self).wf(),
        ensures
            final(self).wf(),
            final(self)@ == Map::<Seq<char>, JournalRecord>::empty(),
            final(self).owed() == old(self).owes(Pending::Delete),
            final(self).file_path() == old(self).file_path(),
            final(self).in_memory() == old(self).in_memory(),
    {
        self.entries.clear();
        proof {
            assert(self@ =~= Map::empty());
        }
        self.mark(Pending::Delete);
    }

    /// The content to write to disk.
    pub fn file(&self) -> (r: JournalFile)
        requires
            self.wf(),
        ensures
            r.version == JOURNAL_VERSION,
            journal_map(r.entries@) == self@,
            r.entries@.len() == self@.dom().len(),
    {
        let mut entries: Vec<JournalEntry> = Vec::new();
        let mut i: usize = 0;
        let ghost ks = self.keys();
        proof {
            self.lemma_keys();
            assert(journal_map(entries@) =~= self@.restrict(ks.take(0).to_set()));
        }
        while i < self.entries.len()
            invariant
                i <= ks.len(),
                self.wf(),
                ks == self.keys(),
                ks.no_duplicates(),
                entries@.len() == i,
                journal_map(entries@) == self@.restrict(ks.take(i as int).to_set()),
            decreases ks.len() - i,
        {
            let ghost before = entries@;
            let entry = self.entry_at(i).copy();
            let ghost e = entry;
            entries.push(entry);
            proof {
                assert(entries@.drop_last() =~= before);
                let key = ks[i as int];
                assert(ks.take(i + 1) =~= ks.take(i as int).push(key));
                assert forall|k: Seq<char>| #[trigger] ks.take(i + 1).contains(k) <==> ks.take(
                    i as int,
                ).contains(k) || k == key by {
                    vstd::seq_lib::lemma_seq_contains_after_push(ks.take(i as int), key, k);
                }
                assert(ks.take(i + 1).to_set() =~= ks.take(i as int).to_set().insert(key));
                assert(self@.restrict(ks.take(i + 1).to_set()) =~= self@.restrict(
                    ks.take(i as int).to_set(),
                ).insert(key, self@[key]));
            }
            i = i + 1;
        }
        proof {
            assert(ks.take(ks.len() as int) =~= ks);
            self.lemma_keys();
            assert(self@.restrict(ks.to_set()) =~= self@);
        }
        JournalFile { version: JOURNAL_VERSION, entries }
    }

    /// Takes the write that is owed.
    pub fn take_pending(&mut self) -> (r: Pending)
        requires
            old(self).wf(),
        ensures
            final(self).wf(),
            r == old(self).owed(),
            final(self).owed() is Nothing,
            final(self)@ == old(self)@,
            final(self).file_path() == old(self).file_path(),
            final(self).in_memory() == old(self).in_memory(),
    {
        let p = self.pending;
        self.pending = Pending::Nothing;
        p
    }
}

// --- Laws ---

/// Merging keeps what was there and adds what is planned, and nothing else.
pub proof fn merged_holds_both(have: Seq<ProcessHandle>, planned: Seq<ProcessHandle>)
    ensures
        forall|h: ProcessHandle| #[trigger]
            merged(have, planned).contains(h) <==> have.contains(h) || planned.contains(h),
        have.is_prefix_of(merged(have, planned)),
        have.no_duplicates() ==> merged(have, planned).no_duplicates(),
    decreases planned.len(),
{
    if planned.len() > 0 {
        let shorter = planned.drop_last();
        let last = planned.last();
        merged_holds_both(have, shorter);
        let before = merged(have, shorter);
        assert forall|h: ProcessHandle| #[trigger]
            merged(have, planned).contains(h) <==> have.contains(h) || planned.contains(h) by {
            assert(planned =~= shorter.push(last));
            vstd::seq_lib::lemma_seq_contains_after_push(shorter, last, h);
            vstd::seq_lib::lemma_seq_contains_after_push(before, last, h);
        }
        if have.no_duplicates() {
            assert(merged(have, planned).no_duplicates());
        }
        assert(have.is_prefix_of(merged(have, planned)));
    }
}

/// Recording an intent loses nothing: what was recorded for any application
/// stays recorded, and every planned process is recorded too.
pub proof fn arm_keeps_and_records(
    m: Map<Seq<char>, JournalRecord>,
    key: Seq<char>,
    method: FreezeMethod,
    cgroup_path: Option<String>,
    planned: Seq<ProcessHandle>,
)
    ensures
        forall|k: Seq<char>, h: ProcessHandle| #[trigger]
            procs_in(m, k).contains(h) ==> procs_in(
                armed(m, key, method, cgroup_path, planned),
                k,
            ).contains(h),
        forall|h: ProcessHandle| #[trigger]
            planned.contains(h) ==> procs_in(
                armed(m, key, method, cgroup_path, planned),
                key,
            ).contains(h),
{
    merged_holds_both(procs_in(m, key), planned);
}

/// Narrowing after a suspension keeps exactly the processes that were reached,
/// or that the suspension was not about.
pub proof fn commit_keeps_the_rest(
    m: Map<Seq<char>, JournalRecord>,
    key: Seq<char>,
    planned: Seq<ProcessHandle>,
    applied: Seq<ProcessHandle>,
)
    ensures
        forall|h: ProcessHandle| #[trigger]
            procs_in(committed(m, key, planned, applied), key).contains(h) <==> procs_in(
                m,
                key,
            ).contains(h) && (applied.contains(h) || !planned.contains(h)),
        forall|k: Seq<char>|
            k != key ==> #[trigger] procs_in(committed(m, key, planned, applied), k) == procs_in(
                m,
                k,
            ),
{
    lemma_filter_contains(
        procs_in(m, key),
        |h: ProcessHandle| applied.contains(h) || !planned.contains(h),
    );
    let left = reached_part(procs_in(m, key), planned, applied);
    assert forall|h: ProcessHandle| #[trigger]
        procs_in(committed(m, key, planned, applied), key).contains(h) <==> procs_in(
            m,
            key,
        ).contains(h) && (applied.contains(h) || !planned.contains(h)) by {
        assert(left.contains(h) <==> procs_in(m, key).contains(h) && (applied.contains(h)
            || !planned.contains(h)));
    }
}

/// Retiring removes exactly the processes that were released: a process that
/// was not stays recorded, and so does every other application.
pub proof fn retire_keeps_the_unreleased(
    m: Map<Seq<char>, JournalRecord>,
    key: Seq<char>,
    done: Seq<u32>,
)
    ensures
        forall|h: ProcessHandle| #[trigger]
            procs_in(retired(m, key, done), key).contains(h) <==> procs_in(m, key).contains(h)
                && !done.contains(h.pid),
        forall|k: Seq<char>|
            k != key ==> #[trigger] procs_in(retired(m, key, done), k) == procs_in(m, k),
{
    lemma_filter_contains(procs_in(m, key), |h: ProcessHandle| !done.contains(h.pid));
    let left = without_pids(procs_in(m, key), done);
    assert forall|h: ProcessHandle| #[trigger]
        procs_in(retired(m, key, done), key).contains(h) <==> procs_in(m, key).contains(h)
            && !done.contains(h.pid) by {
        assert(left.contains(h) <==> procs_in(m, key).contains(h) && !done.contains(h.pid));
    }
}

/// A suspension that reached everything, and a release of everything it
/// reached, leave no record of the application.
pub proof fn freeze_then_thaw_leaves_nothing(
    m: Map<Seq<char>, JournalRecord>,
    key: Seq<char>,
    method: FreezeMethod,
    cgroup_path: Option<String>,
    planned: Seq<ProcessHandle>,
)
    requires
        !m.contains_key(key),
    ensures
        retired(
            committed(armed(m, key, method, cgroup_path, planned), key, planned, planned),
            key,
            pids_of(planned),
        ) == m,
{
    let a = armed(m, key, method, cgroup_path, planned);
    let c = committed(a, key, planned, planned);
    merged_holds_both(procs_in(m, key), planned);
    lemma_filter_contains(
        a[key].procs,
        |h: ProcessHandle| planned.contains(h) || !planned.contains(h),
    );
    if c.contains_key(key) {
        let left = without_pids(c[key].procs, pids_of(planned));
        lemma_filter_contains(c[key].procs, |h: ProcessHandle| !pids_of(planned).contains(h.pid));
        if left.len() > 0 {
            let h = left[0];
            assert(left.contains(h));
            assert(c[key].procs.contains(h));
            assert(a[key].procs.contains(h));
            assert(planned.contains(h));
            let i = choose|i: int| 0 <= i < planned.len() && planned[i] == h;
            assert(pids_of(planned)[i] == h.pid);
            assert(false);
        }
    }
    assert(retired(c, key, pids_of(planned)) =~= m);
}

/// A sweep never drops a process that is still alive.
pub proof fn sweep_keeps_the_living(m: Map<Seq<char>, JournalRecord>, table: ProcessTable)
    ensures
        forall|k: Seq<char>, h: ProcessHandle| #[trigger]
            procs_in(swept(m, table), k).contains(h) <==> procs_in(m, k).contains(h)
                && table.alive(h),
{
    assert forall|k: Seq<char>, h: ProcessHandle| #[trigger]
        procs_in(swept(m, table), k).contains(h) <==> procs_in(m, k).contains(h) && table.alive(
            h,
        ) by {
        lemma_filter_contains(procs_in(m, k), |h: ProcessHandle| table.alive(h));
        if procs_in(m, k).contains(h) && table.alive(h) {
            assert(live_part(procs_in(m, k), table).contains(h));
            assert(live_part(m[k].procs, table).len() > 0);
        }
    }
}

// --- Recovery ---

/// Every process that the entries record, in order.
pub open spec fn recorded_procs(entries: Seq<JournalEntry>) -> Seq<ProcessHandle>
    decreases entries.len(),
{
    if entries.len() == 0 {
        Seq::empty()
    } else {
        recorded_procs(entries.drop_last()) + entries.last().procs@
    }
}

/// The cgroups that the entries record, in order.
pub open spec fn recorded_cgroups(entries: Seq<JournalEntry>) -> Seq<Seq<char>>
    decreases entries.len(),
{
    if entries.len() == 0 {
        Seq::empty()
    } else {
        let before = recorded_cgroups(entries.drop_last());
        match entries.last().cgroup_path {
            Some(path) => before.push(path@),
            None => before,
        }
    }
}

/// Those of `procs` that recovery resumes: alive, and ours.
pub open spec fn resumable(procs: Seq<ProcessHandle>, table: ProcessTable) -> Seq<ProcessHandle> {
    procs.filter(|h: ProcessHandle| table.alive(h) && table.owns(h.pid))
}

/// Those of `procs` that are alive but not ours.
pub open spec fn foreign(procs: Seq<ProcessHandle>, table: ProcessTable) -> Seq<ProcessHandle> {
    procs.filter(|h: ProcessHandle| table.alive(h) && !table.owns(h.pid))
}

/// What recovery is to do with a journal that a previous run left.
#[derive(Debug)]
pub struct RecoveryPlan {
    /// Cgroups to thaw.
    pub cgroups: Vec<String>,
    /// Processes to resume.
    pub resume: Vec<ProcessHandle>,
    /// Recorded processes that had already exited.
    pub stale: usize,
    /// Recorded processes that are not ours.
    pub not_owned: usize,
}

fn flatten_procs(entries: &Vec<JournalEntry>) -> (r: Vec<ProcessHandle>)
    ensures
        r@ == recorded_procs(entries@),
{
    let mut out: Vec<ProcessHandle> = Vec::new();
    let mut i: usize = 0;
    proof {
        assert(entries@.take(0) =~= Seq::empty());
    }
    while i < entries.len()
        invariant
            i <= entries@.len(),
            out@ == recorded_procs(entries@.take(i as int)),
        decreases entries@.len() - i,
    {
        let entry = &entries[i];
        let ghost start = out@;
        let mut j: usize = 0;
        proof {
            assert(start + entry.procs@.take(0) =~= start);
        }
        while j < entry.procs.len()
            invariant
                j <= entry.procs@.len(),
                out@ == start + entry.procs@.take(j as int),
            decreases entry.procs@.len() - j,
        {
            out.push(entry.procs[j]);
            j = j + 1;
            proof {
                assert(out@ =~= start + entry.procs@.take(j as int));
            }
        }
        proof {
            assert(entry.procs@.take(entry.procs@.len() as int) =~= entry.procs@);
            assert(entries@.take(i + 1).drop_last() =~= entries@.take(i as int));
        }
        i = i + 1;
    }
    proof {
        assert(entries@.take(entries@.len() as int) =~= entries@);
    }
    out
}

impl RecoveryPlan {
    /// Decides, for every recorded process, whether to resume it.
    ///
    /// A cgroup is thawed wherever one is recorded, and processes are resumed
    /// regardless: an unnecessary resume costs nothing, a missed one cannot be
    /// made good.
    pub fn new(file: &JournalFile, table: &ProcessTable) -> (r: Self)
        ensures
            path_texts(r.cgroups@) == recorded_cgroups(file.entries@),
            r.resume@ == resumable(recorded_procs(file.entries@), *table),
            r.stale == dead_part(
                recorded_procs(file.entries@),
                *table,
            ).len(),
            r.not_owned == foreign(recorded_procs(file.entries@), *table).len(),
    {
        let mut cgroups: Vec<String> = Vec::new();
        let mut i: usize = 0;
        proof {
            assert(file.entries@.take(0) =~= Seq::empty());
            assert(path_texts(cgroups@) =~= Seq::empty());
        }
        while i < file.entries.len()
            invariant
                i <= file.entries@.len(),
                path_texts(cgroups@) == recorded_cgroups(file.entries@.take(i as int)),
            decreases file.entries@.len() - i,
        {
            let ghost before = cgroups@;
            proof {
                assert(file.entries@.take(i + 1).drop_last() =~= file.entries@.take(i as int));
            }
            match &file.entries[i].cgroup_path {
                Some(path) => {
                    cgroups.push(path.clone());
                    proof {
                        assert(path_texts(cgroups@) =~= path_texts(before).push(path@));
                    }
                },
                None => {},
            }
            i = i + 1;
        }
        proof {
            assert(file.entries@.take(file.entries@.len() as int) =~= file.entries@);
        }
        let procs = flatten_procs(&file.entries);
        let ghost go = |h: ProcessHandle| table.alive(h) && table.owns(h.pid);
        let ghost skip = |h: ProcessHandle| table.alive(h) && !table.owns(h.pid);
        let ghost dead = |h: ProcessHandle| !table.alive(h);
        let mut resume: Vec<ProcessHandle> = Vec::new();
        let mut stale: usize = 0;
        let mut not_owned: usize = 0;
        let mut j: usize = 0;
        proof {
            reveal(Seq::filter);
            assert(resume@ =~= procs@.take(0).filter(go));
        }
        while j < procs.len()
            invariant
                j <= procs@.len(),
                go == (|h: ProcessHandle| table.alive(h) && table.owns(h.pid)),
                skip == (|h: ProcessHandle| table.alive(h) && !table.owns(h.pid)),
                dead == (|h: ProcessHandle| !table.alive(h)),
                resume@ == procs@.take(j as int).filter(go),
                stale == procs@.take(j as int).filter(dead).len(),
                not_owned == procs@.take(j as int).filter(skip).len(),
                stale <= j,
                not_owned <= j,
            decreases procs@.len() - j,
        {
            proof {
                lemma_filter_step(procs@, go, j as int);
                lemma_filter_step(procs@, skip, j as int);
                lemma_filter_step(procs@, dead, j as int);
            }
            let handle = procs[j];
            if !handle.is_alive(table) {
                stale = stale + 1;
            } else if !handle.is_owned(table) {
                not_owned = not_owned + 1;
            } else {
                resume.push(handle);
            }
            j = j + 1;
        }
        proof {
            assert(procs@.take(procs@.len() as int) =~= procs@);
        }
        RecoveryPlan { cgroups, resume, stale, not_owned }
    }

    /// Sums up a recovery in which resuming the processes had these outcomes.
    ///
    /// A process that could not be resumed counts nowhere: one unrecoverable
    /// process does not stop the rest.
    pub fn report(&self, outcomes: &Vec<Delivery>) -> (r: RecoveryReport)
        ensures
            r.thawed == count_done(outcomes@),
            r.stale == self.stale,
            r.not_owned == self.not_owned,
    {
        RecoveryReport {
            thawed: delivered(outcomes),
            stale: self.stale,
            not_owned: self.not_owned,
        }
    }
}

/// The texts of a list of paths.
pub open spec fn path_texts(v: Seq<String>) -> Seq<Seq<char>> {
    v.map_values(|s: String| s@)
}

/// Recovery signals only processes that are alive and ours, so never a recycled
/// PID; and it passes over no recorded process that is both.
pub proof fn recovery_is_exact(entries: Seq<JournalEntry>, table: ProcessTable)
    ensures
        forall|h: ProcessHandle| #[trigger]
            resumable(recorded_procs(entries), table).contains(h) <==> recorded_procs(
                entries,
            ).contains(h) && table.alive(h) && table.owns(h.pid),
{
    lemma_filter_contains(
        recorded_procs(entries),
        |h: ProcessHandle| table.alive(h) && table.owns(h.pid),
    );
}

/// A list of entries denotes no more records than it has entries.
proof fn lemma_journal_map_len(entries: Seq<JournalEntry>)
    ensures
        journal_map(entries).dom().finite(),
        journal_map(entries).dom().len() <= entries.len(),
    decreases entries.len(),
{
    if entries.len() > 0 {
        lemma_journal_map_len(entries.drop_last());
    }
}

proof fn lemma_recorded_procs(entries: Seq<JournalEntry>)
    requires
        journal_map(entries).dom().len() == entries.len(),
    ensures
        forall|h: ProcessHandle| #[trigger]
            recorded_procs(entries).contains(h) <==> recorded(journal_map(entries), h),
    decreases entries.len(),
{
    let m = journal_map(entries);
    if entries.len() == 0 {
        assert forall|h: ProcessHandle| #[trigger]
            recorded_procs(entries).contains(h) <==> recorded(m, h) by {}
    } else {
        let before = entries.drop_last();
        let n = journal_map(before);
        let last = entries.last();
        let key = last.app_id@;
        lemma_journal_map_len(before);
        assert(!n.contains_key(key)) by {
            if n.contains_key(key) {
                assert(m.dom() =~= n.dom());
            }
        }
        lemma_recorded_procs(before);
        assert forall|h: ProcessHandle| #[trigger]
            recorded_procs(entries).contains(h) <==> recorded(m, h) by {
            let all = recorded_procs(entries);
            let old_procs = recorded_procs(before);
            if all.contains(h) {
                let i = choose|i: int| 0 <= i < all.len() && all[i] == h;
                if i < old_procs.len() {
                    assert(old_procs[i] == h);
                    assert(old_procs.contains(h));
                    let k = choose|k: Seq<char>| #[trigger]
                        n.contains_key(k) && n[k].procs.contains(h);
                    assert(m.contains_key(k) && m[k].procs.contains(h));
                } else {
                    assert(last.procs@[i - old_procs.len()] == h);
                    assert(m.contains_key(key) && m[key].procs.contains(h));
                }
            }
            if recorded(m, h) {
                let k = choose|k: Seq<char>| #[trigger]
                    m.contains_key(k) && m[k].procs.contains(h);
                if k == key {
                    let i = choose|i: int| 0 <= i < last.procs@.len() && last.procs@[i] == h;
                    assert(all[old_procs.len() + i] == h);
                } else {
                    assert(n.contains_key(k) && n[k].procs.contains(h));
                    assert(old_procs.contains(h));
                    let i = choose|i: int| 0 <= i < old_procs.len() && old_procs[i] == h;
                    assert(all[i] == h);
                }
            }
        }
    }
}

/// What is written to the journal's file is what recovery acts on: of a file with
/// one entry for each record, recovery resumes exactly the recorded processes that
/// are alive and ours.
pub proof fn what_is_written_is_recovered(entries: Seq<JournalEntry>, table: ProcessTable)
    requires
        journal_map(entries).dom().len() == entries.len(),
    ensures
        forall|h: ProcessHandle| #[trigger]
            resumable(recorded_procs(entries), table).contains(h) <==> recorded(
                journal_map(entries),
                h,
            ) && table.alive(h) && table.owns(h.pid),
{
    lemma_recorded_procs(entries);
    recovery_is_exact(entries, table);
}

/// Recording an intent records how it is to be carried out, and touches no other
/// record.
pub proof fn arm_records_the_way(
    m: Map<Seq<char>, JournalRecord>,
    key: Seq<char>,
    method: FreezeMethod,
    cgroup_path: Option<String>,
    planned: Seq<ProcessHandle>,
    k: Seq<char>,
    h: ProcessHandle,
)
    ensures
        ({
            let r = armed(m, key, method, cgroup_path, planned);
            &&& r.contains_key(key)
            &&& r[key].method == method
            &&& r[key].cgroup_path == cgroup_path
            &&& r[key].procs.contains(h) <==> planned.contains(h) || procs_in(m, key).contains(h)
            &&& k != key ==> (r.contains_key(k) <==> m.contains_key(k)) && r[k] == m[k]
        }),
{
    merged_holds_both(procs_in(m, key), planned);
}

/// Narrowing a record keeps how it was carried out; a record that is left without
/// processes is dropped, and no other changes.
pub proof fn narrowing_keeps_the_way(
    m: Map<Seq<char>, JournalRecord>,
    key: Seq<char>,
    planned: Seq<ProcessHandle>,
    applied: Seq<ProcessHandle>,
    done: Seq<u32>,
    k: Seq<char>,
)
    ensures
        ({
            let c = committed(m, key, planned, applied);
            let r = retired(m, key, done);
            &&& c.contains_key(key) ==> m.contains_key(key) && c[key].method == m[key].method
                && c[key].cgroup_path == m[key].cgroup_path && c[key].procs.len() > 0
            &&& r.contains_key(key) ==> m.contains_key(key) && r[key].method == m[key].method
                && r[key].cgroup_path == m[key].cgroup_path && r[key].procs.len() > 0
            &&& k != key ==> (c.contains_key(k) <==> m.contains_key(k)) && c[k] == m[k]
            &&& k != key ==> (r.contains_key(k) <==> m.contains_key(k)) && r[k] == m[k]
        }),
{
}

/// A sweep keeps how a record was carried out, and drops exactly the records that have
/// no live process.
pub proof fn sweep_drops_the_dead_records(
    m: Map<Seq<char>, JournalRecord>,
    table: ProcessTable,
    k: Seq<char>,
)
    ensures
        swept(m, table).contains_key(k) <==> exists|h: ProcessHandle| #[trigger]
            procs_in(m, k).contains(h) && table.alive(h),
        swept(m, table).contains_key(k) ==> swept(m, table)[k].method == m[k].method && swept(
            m,
            table,
        )[k].cgroup_path == m[k].cgroup_path,
{
    lemma_filter_contains(procs_in(m, k), |h: ProcessHandle| table.alive(h));
    let live = live_part(procs_in(m, k), table);
    if live.len() > 0 {
        assert(live.contains(live[0]));
        assert(procs_in(m, k).contains(live[0]) && table.alive(live[0]));
    }
    if exists|h: ProcessHandle| #[trigger] procs_in(m, k).contains(h) && table.alive(h) {
        let h = choose|h: ProcessHandle| #[trigger] procs_in(m, k).contains(h) && table.alive(h);
        assert(live.contains(h));
        assert(m.contains_key(k));
    }
}

/// Recovery thaws every cgroup that an entry records, and none that no entry does.
pub proof fn every_recorded_cgroup_is_thawed(entries: Seq<JournalEntry>, path: Seq<char>)
    ensures
        recorded_cgroups(entries).contains(path) <==> exists|i: int|
            0 <= i < entries.len() && (#[trigger] entries[i]).cgroup_path is Some
                && entries[i].cgroup_path->0@ == path,
    decreases entries.len(),
{
    if entries.len() > 0 {
        let before = entries.drop_last();
        let n = before.len() as int;
        every_recorded_cgroup_is_thawed(before, path);
        let had = recorded_cgroups(before);
        assert(entries[n] == entries.last());
        if entries.last().cgroup_path is Some {
            vstd::seq_lib::lemma_seq_contains_after_push(
                had,
                entries.last().cgroup_path->0@,
                path,
            );
        }
        if had.contains(path) {
            let i = choose|i: int|
                0 <= i < before.len() && (#[trigger] before[i]).cgroup_path is Some
                    && before[i].cgroup_path->0@ == path;
            assert(entries[i] == before[i]);
        }
        if exists|i: int|
            0 <= i < entries.len() && (#[trigger] entries[i]).cgroup_path is Some
                && entries[i].cgroup_path->0@ == path {
            let i = choose|i: int|
                0 <= i < entries.len() && (#[trigger] entries[i]).cgroup_path is Some
                    && entries[i].cgroup_path->0@ == path;
            if i < n {
                assert(before[i] == entries[i]);
            }
        }
    }
}

/// What the entries record is what is in them: every process of every entry.
pub proof fn every_recorded_process_counts(entries: Seq<JournalEntry>, h: ProcessHandle)
    ensures
        recorded_procs(entries).contains(h) <==> exists|i: int|
            0 <= i < entries.len() && (#[trigger] entries[i]).procs@.contains(h),
    decreases entries.len(),
{
    if entries.len() > 0 {
        let before = entries.drop_last();
        let n = before.len() as int;
        every_recorded_process_counts(before, h);
        let had = recorded_procs(before);
        let own = entries.last().procs@;
        let all = recorded_procs(entries);
        assert(entries[n] == entries.last());
        if all.contains(h) {
            let j = choose|j: int| 0 <= j < all.len() && all[j] == h;
            if j < had.len() {
                assert(had[j] == h);
                let i = choose|i: int|
                    0 <= i < before.len() && (#[trigger] before[i]).procs@.contains(h);
                assert(entries[i] == before[i]);
            } else {
                assert(own[j - had.len()] == h);
                assert(entries[n].procs@.contains(h));
            }
        }
        if exists|i: int| 0 <= i < entries.len() && (#[trigger] entries[i]).procs@.contains(h) {
            let i = choose|i: int|
                0 <= i < entries.len() && (#[trigger] entries[i]).procs@.contains(h);
            if i < n {
                assert(before[i] == entries[i]);
                let j = choose|j: int| 0 <= j < had.len() && had[j] == h;
                assert(all[j] == h);
            } else {
                let j = choose|j: int| 0 <= j < own.len() && own[j] == h;
                assert(all[had.len() + j] == h);
            }
        }
    }
}

/// Recovery decides on every recorded process, in one of three ways: a live one of the
/// user's own is resumed, a live one of another's is passed over, and a dead one is
/// stale.
pub proof fn recovery_decides_on_every_process(
    procs: Seq<ProcessHandle>,
    table: ProcessTable,
    h: ProcessHandle,
)
    ensures
        resumable(procs, table).contains(h) <==> procs.contains(h) && table.alive(h) && table.owns(
            h.pid,
        ),
        foreign(procs, table).contains(h) <==> procs.contains(h) && table.alive(h) && !table.owns(
            h.pid,
        ),
        resumable(procs, table).len() + foreign(procs, table).len() + crate::state::process_set::dead_part(
            procs,
            table,
        ).len() == procs.len(),
{
    lemma_filter_contains(procs, |p: ProcessHandle| table.alive(p) && table.owns(p.pid));
    lemma_filter_contains(procs, |p: ProcessHandle| table.alive(p) && !table.owns(p.pid));
    lemma_three_ways(procs, table);
}

proof fn lemma_three_ways(procs: Seq<ProcessHandle>, table: ProcessTable)
    ensures
        resumable(procs, table).len() + foreign(procs, table).len() + crate::state::process_set::dead_part(
            procs,
            table,
        ).len() == procs.len(),
    decreases procs.len(),
{
    reveal(Seq::filter);
    if procs.len() > 0 {
        lemma_three_ways(procs.drop_last(), table);
    }
}

/// A list of keys is turned into what is recorded under them, key by key.
pub proof fn listed_processes_are_recorded(
    m: Map<Seq<char>, JournalRecord>,
    keys: Seq<Seq<char>>,
    h: ProcessHandle,
)
    ensures
        listed_procs(m, keys).contains(h) <==> exists|k: Seq<char>| #[trigger]
            keys.contains(k) && m[k].procs.contains(h),
        keys.len() > 0 ==> m[keys[0]].procs.is_prefix_of(listed_procs(m, keys)),
    decreases keys.len(),
{
    lemma_listed_procs(m, keys);
    if keys.len() > 1 {
        listed_processes_are_recorded(m, keys.drop_last(), h);
    } else if keys.len() == 1 {
        assert(keys.drop_last() =~= Seq::empty());
        assert(listed_procs(m, keys.drop_last()) =~= Seq::empty());
        assert(listed_procs(m, keys) =~= m[keys[0]].procs);
    }
}

/// A read of the journal finds what was written last under a key.
pub proof fn last_entry_counts(entries: Seq<JournalEntry>, e: JournalEntry, k: Seq<char>)
    ensures
        ({
            let m = journal_map(entries.push(e));
            &&& m.contains_key(e.app_id@)
            &&& m[e.app_id@].procs == e.procs@
            &&& m[e.app_id@].method == e.method
            &&& m[e.app_id@].cgroup_path == e.cgroup_path
            &&& k != e.app_id@ ==> (m.contains_key(k) <==> journal_map(entries).contains_key(k))
                && m[k] == journal_map(entries)[k]
        }),
        journal_map(Seq::empty()) == Map::<Seq<char>, JournalRecord>::empty(),
{
    assert(entries.push(e).drop_last() =~= entries);
}

} // verus!
