//! User input.
use vstd::prelude::*;

use crate::time::Nanos;

verus! {

/// Whether there was input less than `threshold` ago; not where that is unknown.
pub open spec fn recent_input(idle: Option<Nanos>, threshold: Nanos) -> bool {
    idle is Some && idle->0 < threshold
}

/// User idle time, from the milliseconds since the last input that the display
/// server reports.
pub fn get_idle_time(ms_since_user_input: Option<u32>) -> (r: Option<Nanos>)
    ensures
        match ms_since_user_input {
            Some(ms) => r == Some((ms * 1_000_000) as u128),
            None => r is None,
        },
{
    match ms_since_user_input {
        Some(ms) => Some(ms as u128 * 1_000_000),
        None => None,
    }
}

/// Whether the user has had recent input (idle time below the threshold).
pub fn has_recent_input(idle: Option<Nanos>, threshold: Nanos) -> (r: bool)
    ensures
        r == recent_input(idle, threshold),
{
    match idle {
        Some(t) => t < threshold,
        None => false,
    }
}

/// Input counts as recent exactly where it is known to lie less than the threshold
/// back.
pub proof fn recent_input_lies_within_the_threshold(idle: Nanos, threshold: Nanos)
    ensures
        recent_input(Some(idle), threshold) <==> idle < threshold,
        !recent_input(None, threshold),
{
}

} // verus!
