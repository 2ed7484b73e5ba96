//! Periodic reconciliation of what is tracked with the process table.
//!
//! Process liveness, not window bookkeeping, is the honest source of truth for
//! "is this application still here".
use vstd::prelude::*;

use crate::assoc::without_key;
use crate::engine::model::EngineModel;
use crate::engine::rate_limit::forgotten;
use crate::engine::Engine;
use crate::metrics::{bump, bumped, Metrics};
use crate::state::journal::procs_in;
use crate::state::process_set::{copy_handles, dead_part, handle_pids, split_alive};
use crate::state::registry::RegistryModel;
use crate::system::apply::pids_of;
use crate::system::process::{ProcessHandle, ProcessTable};
use crate::time::{elapsed, Nanos};

verus! {

/// What a reconcile tick leads to.
#[derive(Clone, Copy, Debug, PartialEq, Eq, Structural)]
pub struct ReconcileStep {
    /// A sweep is to be carried out.
    pub sweep: bool,
    /// The owners of session-bus names are to be collected.
    pub refresh_bus: bool,
}

/// Processes under a key.
#[derive(Debug)]
pub struct KeyedProcs {
    pub key: String,
    pub procs: Vec<ProcessHandle>,
}

/// PIDs under a key.
#[derive(Debug)]
pub struct KeyedPids {
    pub key: String,
    pub pids: Vec<u32>,
}

/// What a sweep checks.
#[derive(Debug)]
pub struct Snapshot {
    /// Per application, the processes that own its windows.
    pub apps: Vec<KeyedProcs>,
    /// Per journal key, the recorded processes.
    pub journal: Vec<KeyedProcs>,
}

/// What a sweep found to have exited.
#[derive(Debug)]
pub struct SweepResult {
    pub reaped: Vec<KeyedPids>,
    pub journal_dead: Vec<KeyedPids>,
}

/// The keys of a list of processes.
pub open spec fn proc_keys(v: Seq<KeyedProcs>) -> Seq<Seq<char>> {
    v.map_values(|p: KeyedProcs| p.key@)
}

/// The keys of a list of PIDs.
pub open spec fn pid_keys(v: Seq<KeyedPids>) -> Seq<Seq<char>> {
    v.map_values(|p: KeyedPids| p.key@)
}

/// The PIDs of a list of PIDs, key by key.
pub open spec fn pid_lists(v: Seq<KeyedPids>) -> Seq<Seq<u32>> {
    v.map_values(|p: KeyedPids| p.pids@)
}

/// Those of a list of processes that have exited, without the keys that have
/// none.
pub open spec fn dead_of(v: Seq<KeyedProcs>, table: ProcessTable) -> Seq<(Seq<char>, Seq<u32>)>
    decreases v.len(),
{
    if v.len() == 0 {
        Seq::empty()
    } else {
        let before = dead_of(v.drop_last(), table);
        let dead = dead_part(v.last().procs@, table);
        if dead.len() > 0 {
            before.push((v.last().key@, pids_of(dead)))
        } else {
            before
        }
    }
}

/// The view of a list of PIDs.
pub open spec fn pids_view(v: Seq<KeyedPids>) -> Seq<(Seq<char>, Seq<u32>)> {
    v.map_values(|p: KeyedPids| (p.key@, p.pids@))
}

fn dead_pids(v: &Vec<KeyedProcs>, table: &ProcessTable) -> (r: Vec<KeyedPids>)
    ensures
        pids_view(r@) == dead_of(v@, *table),
{
    let mut out: Vec<KeyedPids> = Vec::new();
    let mut i: usize = 0;
    proof {
        assert(v@.take(0) =~= Seq::empty());
        assert(pids_view(out@) =~= Seq::empty());
    }
    while i < v.len()
        invariant
            i <= v@.len(),
            pids_view(out@) == dead_of(v@.take(i as int), *table),
        decreases v@.len() - i,
    {
        let ghost before = out@;
        proof {
            assert(v@.take(i + 1).drop_last() =~= v@.take(i as int));
        }
        let (_live, dead) = split_alive(&v[i].procs, table);
        if dead.len() > 0 {
            let item = KeyedPids { key: v[i].key.clone(), pids: handle_pids(&dead) };
            let ghost k = (item.key@, item.pids@);
            out.push(item);
            proof {
                assert(pids_view(out@) =~= pids_view(before).push(k));
            }
        }
        i = i + 1;
    }
    proof {
        assert(v@.take(v@.len() as int) =~= v@);
    }
    out
}

impl Snapshot {
    /// Carries out the sweep on an observation of the process table.
    pub fn sweep(&self, table: &ProcessTable) -> (r: SweepResult)
        ensures
            pids_view(r.reaped@) == dead_of(self.apps@, *table),
            pids_view(r.journal_dead@) == dead_of(self.journal@, *table),
    {
        SweepResult {
            reaped: dead_pids(&self.apps, table),
            journal_dead: dead_pids(&self.journal, table),
        }
    }
}

impl Engine {
    /// Handles a reconcile tick.
    ///
    /// A tick is skipped while the previous sweep is still running: the interval
    /// bounds how often a sweep starts, not how long one takes.
    pub fn handle_reconcile(&mut self, now: Nanos) -> (r: ReconcileStep)
        requires
            old(self).wf(),
        ensures
            final(self).wf(),
            final(self)@ == old(self)@.ticked(now),
            r == (ReconcileStep {
                sweep: old(self)@.sweeps(),
                refresh_bus: old(self)@.refresh_due(now),
            }),
    {
        self.metrics.reconcile_ticks_total = bump(self.metrics.reconcile_ticks_total, 1);
        let sweep = !self.reconcile_in_flight && (self.registry.len() > 0 || self.journal.len()
            > 0);
        if sweep {
            self.reconcile_in_flight = true;
        }
        let refresh_bus = self.dbus_check && match self.last_dbus_refresh {
            Some(last) => elapsed(last, now) >= self.dbus_refresh_interval,
            None => true,
        };
        if refresh_bus {
            self.last_dbus_refresh = Some(now);
        }
        ReconcileStep { sweep, refresh_bus }
    }

    /// What a sweep is to check.
    pub fn sweep_snapshot(&self) -> (r: Snapshot)
        requires
            self.wf(),
        ensures
            proc_keys(r.apps@) == self@.reg.order,
            forall|i: int|
                0 <= i < r.apps@.len() ==> (#[trigger] r.apps@[i]).procs@ == self@.app(
                    r.apps@[i].key@,
                ).roots,
            proc_keys(r.journal@).no_duplicates(),
            forall|k: Seq<char>| #[trigger]
                self@.journal.contains_key(k) <==> proc_keys(r.journal@).contains(k),
            forall|i: int|
                0 <= i < r.journal@.len() ==> (#[trigger] r.journal@[i]).procs@ == procs_in(
                    self@.journal,
                    r.journal@[i].key@,
                ),
    {
        let mut apps: Vec<KeyedProcs> = Vec::new();
        let ghost order = self@.reg.order;
        let mut i: usize = 0;
        proof {
            assert(proc_keys(apps@) =~= order.take(0));
        }
        while i < self.registry.len()
            invariant
                i <= order.len(),
                order == self@.reg.order,
                self.wf(),
                proc_keys(apps@) == order.take(i as int),
                forall|j: int|
                    0 <= j < apps@.len() ==> (#[trigger] apps@[j]).procs@ == self@.app(
                        apps@[j].key@,
                    ).roots,
            decreases order.len() - i,
        {
            let ghost before = apps@;
            let item = KeyedProcs {
                key: self.registry.key_at(i).clone(),
                procs: copy_handles(self.registry.entry_at(i).roots().handles()),
            };
            let ghost k = item.key@;
            apps.push(item);
            proof {
                assert(proc_keys(apps@) =~= proc_keys(before).push(k));
                assert(order.take(i + 1) =~= order.take(i as int).push(order[i as int]));
            }
            i = i + 1;
        }
        proof {
            assert(order.take(order.len() as int) =~= order);
        }
        let mut journal: Vec<KeyedProcs> = Vec::new();
        let ghost ks = self.journal.keys();
        let mut j: usize = 0;
        proof {
            self.journal.lemma_keys();
            assert(proc_keys(journal@) =~= ks.take(0));
        }
        while j < self.journal.len()
            invariant
                j <= ks.len(),
                ks == self.journal.keys(),
                self.wf(),
                proc_keys(journal@) == ks.take(j as int),
                forall|l: int|
                    0 <= l < journal@.len() ==> (#[trigger] journal@[l]).procs@ == procs_in(
                        self@.journal,
                        journal@[l].key@,
                    ),
            decreases ks.len() - j,
        {
            let ghost before = journal@;
            let entry = self.journal.entry_at(j);
            let item = KeyedProcs { key: entry.app_id.clone(), procs: copy_handles(&entry.procs) };
            let ghost k = item.key@;
            journal.push(item);
            proof {
                assert(proc_keys(journal@) =~= proc_keys(before).push(k));
                assert(ks.take(j + 1) =~= ks.take(j as int).push(ks[j as int]));
            }
            j = j + 1;
        }
        proof {
            assert(ks.take(ks.len() as int) =~= ks);
        }
        Snapshot { apps, journal }
    }

    fn sweep_journal(&mut self, dead: &Vec<KeyedPids>)
        requires
            old(self).wf(),
        ensures
            final(self).wf(),
            final(self)@ == old(self)@.journal_swept(pid_keys(dead@), pid_lists(dead@)),
    {
        if dead.len() == 0 {
            return;
        }
        let ghost m0 = self@;
        let before: usize = self.journal.len();
        let ghost ks = pid_keys(dead@);
        let ghost ps = pid_lists(dead@);
        let mut i: usize = 0;
        proof {
            assert(ks.take(0) =~= Seq::empty());
            assert(ps.take(0) =~= Seq::empty());
        }
        while i < dead.len()
            invariant
                i <= dead@.len(),
                ks == pid_keys(dead@),
                ps == pid_lists(dead@),
                self.wf(),
                self@ == m0.released_all(ks.take(i as int), ps.take(i as int)),
            decreases dead@.len() - i,
        {
            proof {
                assert(ks.take(i + 1).drop_last() =~= ks.take(i as int));
                assert(ps.take(i + 1).drop_last() =~= ps.take(i as int));
                assert(ks[i as int] == dead@[i as int].key@);
                assert(ps[i as int] == dead@[i as int].pids@);
            }
            self.retire(&dead[i].key, &dead[i].pids);
            i = i + 1;
        }
        proof {
            assert(ks.take(ks.len() as int) =~= ks);
            assert(ps.take(ps.len() as int) =~= ps);
        }
        let after: usize = self.journal.len();
        let dropped: usize = if after <= before {
            before - after
        } else {
            0
        };
        self.metrics.journal_stale_dropped_total = bump(
            self.metrics.journal_stale_dropped_total,
            dropped as u64,
        );
    }

    fn reap(&mut self, key: &str, pids: &Vec<u32>) -> (r: Option<String>)
        requires
            old(self).wf(),
        ensures
            final(self).wf(),
            final(self)@ == old(self)@.reaped(key@, pids@),
            r == (if old(self)@.tracks(key@) && old(self)@.app(key@).without_procs(
                pids@,
            ).defunct() {
                old(self)@.app(key@).cgroup
            } else {
                None
            }),
    {
        let ghost m0 = self@;
        let defunct = match self.registry.get_mut(key) {
            Some(entry) => {
                entry.remove_pids(pids);
                entry.is_defunct()
            },
            None => {
                return None;
            },
        };
        self.metrics.pids_reaped_total = bump(self.metrics.pids_reaped_total, pids.len() as u64);
        if defunct {
            self.retire_defunct_app(key)
        } else {
            None
        }
    }

    /// Drops an application whose processes have all exited.
    ///
    /// Its journal record is left alone: descendants that were signalled may
    /// still be alive and stopped.
    fn retire_defunct_app(&mut self, key: &str) -> (r: Option<String>)
        requires
            old(self).wf(),
            old(self)@.tracks(key@),
        ensures
            final(self).wf(),
            r == old(self)@.app(key@).cgroup,
            final(self)@ == ({
                let m = old(self)@;
                EngineModel {
                    reg: RegistryModel {
                        apps: m.reg.apps.remove(key@),
                        order: without_key(m.reg.order, key@),
                    },
                    metrics: Metrics {
                        apps_removed_stale_total: bumped(m.metrics.apps_removed_stale_total, 1),
                        ..m.metrics
                    },
                    failures: m.failures.remove(key@),
                    seen: forgotten(m.seen, m.app(key@).name),
                    ..m
                }
            }),
    {
        self.metrics.apps_removed_stale_total = bump(self.metrics.apps_removed_stale_total, 1);
        match self.registry.remove_app(key) {
            Some(entry) => {
                self.clear_failures(key);
                self.limiter.forget_app(entry.app_id().as_str());
                entry.cgroup_path_buf()
            },
            None => None,
        }
    }

    /// Applies the result of a sweep: drops dead PIDs, retires dead
    /// applications. Returns the cgroups that are to be removed.
    pub fn apply_reconcile_result(&mut self, result: &SweepResult) -> (r: Vec<String>)
        requires
            old(self).wf(),
        ensures
            final(self).wf(),
            final(self)@ == (EngineModel { in_flight: false, ..old(self)@ }).journal_swept(
                pid_keys(result.journal_dead@),
                pid_lists(result.journal_dead@),
            ).reaped_all(pid_keys(result.reaped@), pid_lists(result.reaped@)),
            r@ == (EngineModel { in_flight: false, ..old(self)@ }).journal_swept(
                pid_keys(result.journal_dead@),
                pid_lists(result.journal_dead@),
            ).reaped_cgroups(pid_keys(result.reaped@), pid_lists(result.reaped@)),
    {
        self.reconcile_in_flight = false;
        self.sweep_journal(&result.journal_dead);
        let ghost m0 = self@;
        let ghost ks = pid_keys(result.reaped@);
        let ghost ps = pid_lists(result.reaped@);
        let mut cgroups: Vec<String> = Vec::new();
        let mut i: usize = 0;
        proof {
            assert(ks.take(0) =~= Seq::empty());
            assert(ps.take(0) =~= Seq::empty());
        }
        while i < result.reaped.len()
            invariant
                i <= result.reaped@.len(),
                ks == pid_keys(result.reaped@),
                ps == pid_lists(result.reaped@),
                self.wf(),
                self@ == m0.reaped_all(ks.take(i as int), ps.take(i as int)),
                cgroups@ == m0.reaped_cgroups(ks.take(i as int), ps.take(i as int)),
            decreases result.reaped@.len() - i,
        {
            proof {
                assert(ks.take(i + 1).drop_last() =~= ks.take(i as int));
                assert(ps.take(i + 1).drop_last() =~= ps.take(i as int));
                assert(ks[i as int] == result.reaped@[i as int].key@);
                assert(ps[i as int] == result.reaped@[i as int].pids@);
            }
            let item = &result.reaped[i];
            if let Some(path) = self.reap(&item.key, &item.pids) {
                cgroups.push(path);
            }
            i = i + 1;
        }
        proof {
            assert(ks.take(ks.len() as int) =~= ks);
            assert(ps.take(ps.len() as int) =~= ps);
        }
        cgroups
    }

    /// Installs a freshly collected set of bus owners.
    pub fn protection_refreshed(&mut self, owners: std::collections::HashMap<u32, String>)
        requires
            old(self).wf(),
        ensures
            final(self).wf(),
            final(self)@ == (EngineModel {
                owners: owners@.map_values(|s: String| s@),
                ..old(self)@
            }),
    {
        self.protection.apply_refresh(owners);
    }
}

} // verus!
