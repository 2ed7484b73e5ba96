//! Daemon counters.
use vstd::prelude::*;

verus! {

/// Daemon metrics. Counters wrap around at 64 bits.
#[derive(Clone, Copy, Debug, PartialEq, Eq, Structural)]
pub struct Metrics {
    pub apps_frozen_total: u64,
    pub apps_thawed_total: u64,
    pub apps_throttled_total: u64,
    pub apps_unthrottled_total: u64,
    pub focus_changes_total: u64,
    pub guard_blocks_total: u64,
    pub config_reloads_total: u64,
    pub time_in_frozen_ms: u64,
    pub time_in_throttled_ms: u64,
    /// Reconcile sweeps started or skipped.
    pub reconcile_ticks_total: u64,
    /// Dead PIDs dropped from tracked applications.
    pub pids_reaped_total: u64,
    /// Applications removed because every process they owned had exited.
    pub apps_removed_stale_total: u64,
    /// Suspend attempts refused because the target is protected.
    pub protection_blocks_total: u64,
    /// Processes released on startup from a previous run's journal.
    pub journal_recovered_total: u64,
    /// Journal entries dropped because all their processes had exited.
    pub journal_stale_dropped_total: u64,
    /// Log messages withheld by the rate limiter.
    pub warns_suppressed_total: u64,
}

/// Snapshot of the metrics, as it is reported.
#[derive(Clone, Copy, Debug, PartialEq, Eq, Structural)]
pub struct MetricsSnapshot {
    pub apps_frozen_total: u64,
    pub apps_thawed_total: u64,
    pub apps_throttled_total: u64,
    pub apps_unthrottled_total: u64,
    pub focus_changes_total: u64,
    pub guard_blocks_total: u64,
    pub config_reloads_total: u64,
    pub time_in_frozen_ms: u64,
    pub time_in_throttled_ms: u64,
    pub reconcile_ticks_total: u64,
    pub pids_reaped_total: u64,
    pub apps_removed_stale_total: u64,
    pub protection_blocks_total: u64,
    pub journal_recovered_total: u64,
    pub journal_stale_dropped_total: u64,
    pub warns_suppressed_total: u64,
}

/// A counter after `by` more, modulo 2^64.
pub open spec fn bumped(counter: u64, by: u64) -> u64 {
    if counter + by > u64::MAX {
        (counter + by - u64::MAX - 1) as u64
    } else {
        (counter + by) as u64
    }
}

/// Adds to a counter.
pub fn bump(counter: u64, by: u64) -> (r: u64)
    ensures
        r == bumped(counter, by),
{
    if by <= u64::MAX - counter {
        counter + by
    } else {
        by - (u64::MAX - counter) - 1
    }
}

/// All counters at zero.
pub open spec fn zero_metrics() -> Metrics {
    Metrics {
        apps_frozen_total: 0,
        apps_thawed_total: 0,
        apps_throttled_total: 0,
        apps_unthrottled_total: 0,
        focus_changes_total: 0,
        guard_blocks_total: 0,
        config_reloads_total: 0,
        time_in_frozen_ms: 0,
        time_in_throttled_ms: 0,
        reconcile_ticks_total: 0,
        pids_reaped_total: 0,
        apps_removed_stale_total: 0,
        protection_blocks_total: 0,
        journal_recovered_total: 0,
        journal_stale_dropped_total: 0,
        warns_suppressed_total: 0,
    }
}

impl Default for Metrics {
    fn default() -> (r: Self)
        ensures
            r == zero_metrics(),
    {
        Metrics::new()
    }
}

impl Metrics {
    /// All counters at zero.
    pub fn new() -> (r: Self)
        ensures
            r == zero_metrics(),
    {
        Metrics {
            apps_frozen_total: 0,
            apps_thawed_total: 0,
            apps_throttled_total: 0,
            apps_unthrottled_total: 0,
            focus_changes_total: 0,
            guard_blocks_total: 0,
            config_reloads_total: 0,
            time_in_frozen_ms: 0,
            time_in_throttled_ms: 0,
            reconcile_ticks_total: 0,
            pids_reaped_total: 0,
            apps_removed_stale_total: 0,
            protection_blocks_total: 0,
            journal_recovered_total: 0,
            journal_stale_dropped_total: 0,
            warns_suppressed_total: 0,
        }
    }

    /// What a snapshot of the metrics holds.
    pub open spec fn reading(&self) -> MetricsSnapshot {
        MetricsSnapshot {
            apps_frozen_total: self.apps_frozen_total,
            apps_thawed_total: self.apps_thawed_total,
            apps_throttled_total: self.apps_throttled_total,
            apps_unthrottled_total: self.apps_unthrottled_total,
            focus_changes_total: self.focus_changes_total,
            guard_blocks_total: self.guard_blocks_total,
            config_reloads_total: self.config_reloads_total,
            time_in_frozen_ms: self.time_in_frozen_ms,
            time_in_throttled_ms: self.time_in_throttled_ms,
            reconcile_ticks_total: self.reconcile_ticks_total,
            pids_reaped_total: self.pids_reaped_total,
            apps_removed_stale_total: self.apps_removed_stale_total,
            protection_blocks_total: self.protection_blocks_total,
            journal_recovered_total: self.journal_recovered_total,
            journal_stale_dropped_total: self.journal_stale_dropped_total,
            warns_suppressed_total: self.warns_suppressed_total,
        }
    }

    /// Reads all counters.
    pub fn snapshot(&self) -> (r: MetricsSnapshot)
        ensures
            r == self.reading(),
    {
        MetricsSnapshot {
            apps_frozen_total: self.apps_frozen_total,
            apps_thawed_total: self.apps_thawed_total,
            apps_throttled_total: self.apps_throttled_total,
            apps_unthrottled_total: self.apps_unthrottled_total,
            focus_changes_total: self.focus_changes_total,
            guard_blocks_total: self.guard_blocks_total,
            config_reloads_total: self.config_reloads_total,
            time_in_frozen_ms: self.time_in_frozen_ms,
            time_in_throttled_ms: self.time_in_throttled_ms,
            reconcile_ticks_total: self.reconcile_ticks_total,
            pids_reaped_total: self.pids_reaped_total,
            apps_removed_stale_total: self.apps_removed_stale_total,
            protection_blocks_total: self.protection_blocks_total,
            journal_recovered_total: self.journal_recovered_total,
            journal_stale_dropped_total: self.journal_stale_dropped_total,
            warns_suppressed_total: self.warns_suppressed_total,
        }
    }
}

/// A counter counts modulo 2^64: it moves by what is added, and starts over at zero
/// past its largest value.
pub proof fn counters_count(counter: u64, by: u64)
    ensures
        counter + by <= u64::MAX ==> bumped(counter, by) == counter + by,
        counter + by > u64::MAX ==> bumped(counter, by) == counter + by - 0x1_0000_0000_0000_0000,
        bumped(counter, 0) == counter,
        by > 0 ==> bumped(counter, by) != counter,
{
}

/// A snapshot shows every counter as it stands.
pub proof fn snapshot_shows_every_counter(m: Metrics)
    ensures
        ({
            let s = m.reading();
            &&& s.apps_frozen_total == m.apps_frozen_total
            &&& s.apps_thawed_total == m.apps_thawed_total
            &&& s.apps_throttled_total == m.apps_throttled_total
            &&& s.apps_unthrottled_total == m.apps_unthrottled_total
            &&& s.focus_changes_total == m.focus_changes_total
            &&& s.guard_blocks_total == m.guard_blocks_total
            &&& s.config_reloads_total == m.config_reloads_total
            &&& s.time_in_frozen_ms == m.time_in_frozen_ms
            &&& s.time_in_throttled_ms == m.time_in_throttled_ms
            &&& s.reconcile_ticks_total == m.reconcile_ticks_total
            &&& s.pids_reaped_total == m.pids_reaped_total
            &&& s.apps_removed_stale_total == m.apps_removed_stale_total
            &&& s.protection_blocks_total == m.protection_blocks_total
            &&& s.journal_recovered_total == m.journal_recovered_total
            &&& s.journal_stale_dropped_total == m.journal_stale_dropped_total
            &&& s.warns_suppressed_total == m.warns_suppressed_total
        }),
{
}

} // verus!
