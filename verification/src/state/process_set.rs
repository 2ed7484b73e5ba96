//! The set of processes an application owns.
use vstd::prelude::*;

use crate::system::apply::pids_of;
use crate::system::process::{ProcessHandle, ProcessTable};

verus! {

/// A deduplicated set of process identities belonging to one application.
#[derive(Debug)]
pub struct ProcessSet {
    procs: Vec<ProcessHandle>,
    /// Whether this set ever held a process: it tells "everything died" from
    /// "no PID was ever learned".
    had_live_procs: bool,
}

/// `procs` without those whose PID is in `pids`.
pub open spec fn without_pids(procs: Seq<ProcessHandle>, pids: Seq<u32>) -> Seq<ProcessHandle> {
    procs.filter(|h: ProcessHandle| !pids.contains(h.pid))
}

/// Those of `procs` that are alive.
pub open spec fn live_part(procs: Seq<ProcessHandle>, table: ProcessTable) -> Seq<ProcessHandle> {
    procs.filter(|h: ProcessHandle| table.alive(h))
}

/// Those of `procs` that are not alive.
pub open spec fn dead_part(procs: Seq<ProcessHandle>, table: ProcessTable) -> Seq<ProcessHandle> {
    procs.filter(|h: ProcessHandle| !table.alive(h))
}

/// Filtering a sequence one element longer.
pub proof fn lemma_filter_step<T>(
    s: Seq<T>,
    keep: spec_fn(T) -> bool,
    i: int,
)
    requires
        0 <= i < s.len(),
    ensures
        s.take(i + 1).filter(keep) == (if keep(s[i]) {
            s.take(i).filter(keep).push(s[i])
        } else {
            s.take(i).filter(keep)
        }),
{
    reveal(Seq::filter);
    assert(s.take(i + 1).drop_last() =~= s.take(i));
}

/// What a filtered sequence holds.
pub proof fn lemma_filter_contains(
    s: Seq<ProcessHandle>,
    keep: spec_fn(ProcessHandle) -> bool,
)
    ensures
        forall|h: ProcessHandle| #[trigger]
            s.filter(keep).contains(h) <==> s.contains(h) && keep(h),
        s.no_duplicates() ==> s.filter(keep).no_duplicates(),
        s.filter(keep).len() <= s.len(),
    decreases s.len(),
{
    reveal(Seq::filter);
    if s.len() > 0 {
        let t = s.drop_last();
        lemma_filter_contains(t, keep);
        assert forall|h: ProcessHandle| #[trigger]
            s.filter(keep).contains(h) <==> s.contains(h) && keep(h) by {
            assert(s =~= t.push(s.last()));
            vstd::seq_lib::lemma_seq_contains_after_push(t, s.last(), h);
            vstd::seq_lib::lemma_seq_contains_after_push(t.filter(keep), s.last(), h);
        }
        if s.no_duplicates() {
            assert(!t.contains(s.last())) by {
                if t.contains(s.last()) {
                    let m = choose|m: int| 0 <= m < t.len() && t[m] == s.last();
                    assert(s[m] == s[s.len() - 1]);
                }
            }
            assert(t.no_duplicates());
            assert(!t.filter(keep).contains(s.last()));
            assert(s.filter(keep).no_duplicates());
        }
    }
}

/// Whether `pid` is in `pids`.
pub fn contains_u32(pids: &Vec<u32>, pid: u32) -> (r: bool)
    ensures
        r == pids@.contains(pid),
{
    let mut i: usize = 0;
    while i < pids.len()
        invariant
            i <= pids@.len(),
            forall|j: int| 0 <= j < i ==> pids@[j] != pid,
        decreases pids@.len() - i,
    {
        if pids[i] == pid {
            return true;
        }
        i = i + 1;
    }
    false
}

/// Whether `handle` is in `procs`.
pub fn contains_handle(procs: &Vec<ProcessHandle>, handle: ProcessHandle) -> (r: bool)
    ensures
        r == procs@.contains(handle),
{
    let mut i: usize = 0;
    while i < procs.len()
        invariant
            i <= procs@.len(),
            forall|j: int| 0 <= j < i ==> procs@[j] != handle,
        decreases procs@.len() - i,
    {
        if procs[i] == handle {
            return true;
        }
        i = i + 1;
    }
    false
}

/// A copy of a list of identities.
pub fn copy_handles(procs: &Vec<ProcessHandle>) -> (r: Vec<ProcessHandle>)
    ensures
        r@ == procs@,
{
    let mut out: Vec<ProcessHandle> = Vec::new();
    let mut i: usize = 0;
    while i < procs.len()
        invariant
            i <= procs@.len(),
            out@ == procs@.take(i as int),
        decreases procs@.len() - i,
    {
        out.push(procs[i]);
        i = i + 1;
        proof {
            assert(procs@.take(i as int) =~= procs@.take(i - 1).push(procs@[i - 1]));
        }
    }
    proof {
        assert(procs@.take(procs@.len() as int) =~= procs@);
    }
    out
}

/// The PIDs of a list of identities.
pub fn handle_pids(procs: &Vec<ProcessHandle>) -> (r: Vec<u32>)
    ensures
        r@ == pids_of(procs@),
{
    let mut out: Vec<u32> = Vec::new();
    let mut i: usize = 0;
    while i < procs.len()
        invariant
            i <= procs@.len(),
            out@ == pids_of(procs@).take(i as int),
        decreases procs@.len() - i,
    {
        out.push(procs[i].pid);
        i = i + 1;
        proof {
            assert(out@ =~= pids_of(procs@).take(i as int));
        }
    }
    proof {
        assert(pids_of(procs@).take(procs@.len() as int) =~= pids_of(procs@));
    }
    out
}

/// Drops from `procs` those whose PID is in `pids`.
pub fn drop_pids(procs: &Vec<ProcessHandle>, pids: &Vec<u32>) -> (r: Vec<ProcessHandle>)
    ensures
        r@ == without_pids(procs@, pids@),
{
    let ghost keep = |h: ProcessHandle| !pids@.contains(h.pid);
    let mut out: Vec<ProcessHandle> = Vec::new();
    let mut i: usize = 0;
    proof {
        reveal(Seq::filter);
        assert(out@ =~= procs@.take(0).filter(keep));
    }
    while i < procs.len()
        invariant
            i <= procs@.len(),
            keep == (|h: ProcessHandle| !pids@.contains(h.pid)),
            out@ == procs@.take(i as int).filter(keep),
        decreases procs@.len() - i,
    {
        proof {
            lemma_filter_step(procs@, keep, i as int);
        }
        if !contains_u32(pids, procs[i].pid) {
            out.push(procs[i]);
        }
        i = i + 1;
    }
    proof {
        assert(procs@.take(procs@.len() as int) =~= procs@);
    }
    out
}

/// Splits `procs` into the live and the dead.
pub fn split_alive(procs: &Vec<ProcessHandle>, table: &ProcessTable) -> (r: (
    Vec<ProcessHandle>,
    Vec<ProcessHandle>,
))
    ensures
        r.0@ == live_part(procs@, *table),
        r.1@ == dead_part(procs@, *table),
{
    let ghost keep = |h: ProcessHandle| table.alive(h);
    let ghost drop = |h: ProcessHandle| !table.alive(h);
    let mut live: Vec<ProcessHandle> = Vec::new();
    let mut dead: Vec<ProcessHandle> = Vec::new();
    let mut i: usize = 0;
    proof {
        reveal(Seq::filter);
        assert(live@ =~= procs@.take(0).filter(keep));
        assert(dead@ =~= procs@.take(0).filter(drop));
    }
    while i < procs.len()
        invariant
            i <= procs@.len(),
            keep == (|h: ProcessHandle| table.alive(h)),
            drop == (|h: ProcessHandle| !table.alive(h)),
            live@ == procs@.take(i as int).filter(keep),
            dead@ == procs@.take(i as int).filter(drop),
        decreases procs@.len() - i,
    {
        proof {
            lemma_filter_step(procs@, keep, i as int);
            lemma_filter_step(procs@, drop, i as int);
        }
        if procs[i].is_alive(table) {
            live.push(procs[i]);
        } else {
            dead.push(procs[i]);
        }
        i = i + 1;
    }
    proof {
        assert(procs@.take(procs@.len() as int) =~= procs@);
    }
    (live, dead)
}

impl Default for ProcessSet {
    /// The empty set.
    fn default() -> (r: Self)
        ensures
            r@ == Seq::<ProcessHandle>::empty(),
            !r.ever_populated(),
            r.wf(),
    {
        ProcessSet { procs: Vec::new(), had_live_procs: false }
    }
}

impl View for ProcessSet {
    type V = Seq<ProcessHandle>;

    /// The recorded identities, in insertion order.
    closed spec fn view(&self) -> Seq<ProcessHandle> {
        self.procs@
    }
}

impl ProcessSet {
    /// Whether the set ever held a process.
    pub closed spec fn ever_populated(&self) -> bool {
        self.had_live_procs
    }

    /// Nothing occurs twice, and a set that holds something has been populated.
    pub open spec fn wf(&self) -> bool {
        &&& self@.no_duplicates()
        &&& self@.len() > 0 ==> self.ever_populated()
    }

    /// Adds a process identity, ignoring duplicates.
    pub fn insert(&mut self, handle: ProcessHandle)
        requires
            old(self).wf(),
        ensures
            final(self).wf(),
            final(self)@ == (if old(self)@.contains(handle) {
                old(self)@
            } else {
                old(self)@.push(handle)
            }),
            final(self).ever_populated(),
    {
        if !contains_handle(&self.procs, handle) {
            self.procs.push(handle);
            self.had_live_procs = true;
        }
    }

    /// Captures and adds the identity of `pid`, if it is running.
    pub fn insert_pid(&mut self, pid: u32, table: &ProcessTable) -> (r: Option<ProcessHandle>)
        requires
            old(self).wf(),
        ensures
            final(self).wf(),
            r == table.handle_of(pid),
            match r {
                Some(handle) => {
                    &&& final(self)@ == (if old(self)@.contains(handle) {
                        old(self)@
                    } else {
                        old(self)@.push(handle)
                    })
                    &&& final(self).ever_populated()
                },
                None => *final(self) == *old(self),
            },
    {
        match ProcessHandle::open(pid, table) {
            Some(handle) => {
                self.insert(handle);
                Some(handle)
            },
            None => None,
        }
    }

    /// Whether any recorded process carries this PID.
    pub fn contains_pid(&self, pid: u32) -> (r: bool)
        ensures
            r == pids_of(self@).contains(pid),
    {
        let mut i: usize = 0;
        while i < self.procs.len()
            invariant
                i <= self.procs@.len(),
                forall|j: int| 0 <= j < i ==> pids_of(self@)[j] != pid,
            decreases self.procs@.len() - i,
        {
            proof {
                assert(pids_of(self@)[i as int] == self.procs@[i as int].pid);
            }
            if self.procs[i].pid == pid {
                return true;
            }
            i = i + 1;
        }
        false
    }

    /// The recorded process identities, in insertion order.
    pub fn handles(&self) -> (r: &Vec<ProcessHandle>)
        ensures
            r@ == self@,
    {
        &self.procs
    }

    /// The PIDs of the recorded processes, in insertion order.
    pub fn pids(&self) -> (r: Vec<u32>)
        ensures
            r@ == pids_of(self@),
    {
        handle_pids(&self.procs)
    }

    /// Whether the set holds no process now.
    pub fn is_empty(&self) -> (r: bool)
        ensures
            r == (self@.len() == 0),
    {
        self.procs.len() == 0
    }

    /// Whether this set ever contained a process.
    pub fn had_live_procs(&self) -> (r: bool)
        ensures
            r == self.ever_populated(),
    {
        self.had_live_procs
    }

    /// Drops the PIDs named in `pids`.
    pub fn remove_pids(&mut self, pids: &Vec<u32>)
        requires
            old(self).wf(),
        ensures
            final(self).wf(),
            final(self)@ == without_pids(old(self)@, pids@),
            final(self).ever_populated() == old(self).ever_populated(),
    {
        let ghost before = self.procs@;
        let kept = drop_pids(&self.procs, pids);
        proof {
            lemma_filter_contains(before, |h: ProcessHandle| !pids@.contains(h.pid));
        }
        self.procs = kept;
    }

    /// Drops every process that is no longer alive, returning those removed.
    pub fn retain_alive(&mut self, table: &ProcessTable) -> (r: Vec<ProcessHandle>)
        requires
            old(self).wf(),
        ensures
            final(self).wf(),
            final(self)@ == live_part(old(self)@, *table),
            r@ == dead_part(old(self)@, *table),
            final(self).ever_populated() == old(self).ever_populated(),
    {
        let ghost before = self.procs@;
        let (live, dead) = split_alive(&self.procs, table);
        proof {
            lemma_filter_contains(before, |h: ProcessHandle| table.alive(h));
        }
        self.procs = live;
        dead
    }
}

/// A sweep keeps what is alive and returns the rest: nothing is lost or kept
/// twice.
pub proof fn retain_alive_is_a_split(procs: Seq<ProcessHandle>, table: ProcessTable)
    ensures
        forall|h: ProcessHandle| #[trigger]
            procs.contains(h) <==> live_part(procs, table).contains(h) || dead_part(
                procs,
                table,
            ).contains(h),
        forall|h: ProcessHandle|
            !(live_part(procs, table).contains(h) && dead_part(procs, table).contains(h)),
{
    lemma_filter_contains(procs, |h: ProcessHandle| table.alive(h));
    lemma_filter_contains(procs, |h: ProcessHandle| !table.alive(h));
}

/// The living part of a set holds exactly its live processes, the dead part exactly
/// the others.
pub proof fn parts_are_told_by_life(
    procs: Seq<ProcessHandle>,
    table: ProcessTable,
    h: ProcessHandle,
)
    ensures
        live_part(procs, table).contains(h) <==> procs.contains(h) && table.alive(h),
        dead_part(procs, table).contains(h) <==> procs.contains(h) && !table.alive(h),
        live_part(procs, table).len() + dead_part(procs, table).len() == procs.len(),
{
    lemma_filter_contains(procs, |p: ProcessHandle| table.alive(p));
    lemma_filter_contains(procs, |p: ProcessHandle| !table.alive(p));
    lemma_parts_len(procs, table);
}

proof fn lemma_parts_len(procs: Seq<ProcessHandle>, table: ProcessTable)
    ensures
        live_part(procs, table).len() + dead_part(procs, table).len() == procs.len(),
    decreases procs.len(),
{
    reveal(Seq::filter);
    if procs.len() > 0 {
        lemma_parts_len(procs.drop_last(), table);
    }
}

/// Dropping PIDs takes from a set exactly the processes that carry one of them.
pub proof fn dropping_pids_is_exact(procs: Seq<ProcessHandle>, pids: Seq<u32>, h: ProcessHandle)
    ensures
        without_pids(procs, pids).contains(h) <==> procs.contains(h) && !pids.contains(h.pid),
        procs.no_duplicates() ==> without_pids(procs, pids).no_duplicates(),
{
    lemma_filter_contains(procs, |p: ProcessHandle| !pids.contains(p.pid));
}

} // verus!
