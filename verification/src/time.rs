//! Spans of time and instants, in nanoseconds.
use vstd::prelude::*;

verus! {

/// A span of time, or an instant on the monotonic clock, in nanoseconds.
pub type Nanos = u128;

/// One second.
pub const SECOND: u128 = 1_000_000_000;

/// The span from `since` to `now`; zero where `since` lies later.
pub open spec fn span(since: Nanos, now: Nanos) -> Nanos {
    if now >= since {
        (now - since) as u128
    } else {
        0
    }
}

/// The instant `delay` after `now`; the last instant where there is none.
pub open spec fn later(now: Nanos, delay: Nanos) -> Nanos {
    if now + delay <= u128::MAX {
        (now + delay) as u128
    } else {
        u128::MAX
    }
}

/// Whole milliseconds of a span, as a 64-bit counter holds them.
pub open spec fn millis(t: Nanos) -> u64 {
    (t / 1_000_000) as u64
}

/// Whole seconds of a span, at most what 64 bits hold.
pub open spec fn whole_secs(t: Nanos) -> u64 {
    if t / SECOND <= u64::MAX {
        (t / SECOND) as u64
    } else {
        u64::MAX
    }
}

/// Time elapsed from `since` to `now`.
pub fn elapsed(since: Nanos, now: Nanos) -> (r: Nanos)
    ensures
        r == span(since, now),
{
    if now >= since {
        now - since
    } else {
        0
    }
}

/// The instant `delay` after `now`.
pub fn deadline(now: Nanos, delay: Nanos) -> (r: Nanos)
    ensures
        r == later(now, delay),
{
    if delay <= u128::MAX - now {
        now + delay
    } else {
        u128::MAX
    }
}

/// Whole milliseconds of a span.
pub fn as_millis(t: Nanos) -> (r: u64)
    ensures
        r == millis(t),
{
    #[verifier::truncate]
    let r = (t / 1_000_000) as u64;
    r
}

/// Whole seconds of a span.
pub fn as_secs(t: Nanos) -> (r: u64)
    ensures
        r == whole_secs(t),
{
    let s: u128 = t / SECOND;
    if s <= 0xffff_ffff_ffff_ffff {
        s as u64
    } else {
        u64::MAX
    }
}

/// A deadline lies its delay after now, and is reached no earlier: until then some of
/// the delay is left. One that would lie beyond the last instant is the last instant.
pub proof fn deadline_lies_its_delay_ahead(now: Nanos, delay: Nanos)
    ensures
        later(now, delay) >= now,
        now + delay <= u128::MAX ==> later(now, delay) == now + delay,
        now + delay <= u128::MAX ==> span(now, later(now, delay)) == delay,
        now + delay > u128::MAX ==> later(now, delay) == u128::MAX,
{
}

/// A span is what lies between two instants, and nothing where they are reversed.
pub proof fn span_lies_between(since: Nanos, now: Nanos)
    ensures
        since <= now ==> since + span(since, now) == now,
        now <= since ==> span(since, now) == 0,
{
}

/// Whole units of a span are those that fit into it: one more would not.
pub proof fn whole_units_fit(t: Nanos)
    ensures
        t / 1_000_000 <= u64::MAX ==> millis(t) * 1_000_000 <= t < (millis(t) + 1) * 1_000_000,
        t / SECOND <= u64::MAX ==> whole_secs(t) * 1_000_000_000 <= t < (whole_secs(t) + 1)
            * 1_000_000_000,
        t / SECOND > u64::MAX ==> whole_secs(t) == u64::MAX,
{
}

} // verus!
