//! Time, as the engine sees it.
//!
//! The engine reads no clock. Its caller supplies the current time as a
//! count of milliseconds on a monotonic clock, and the engine compares
//! spans of that time with `chrono` durations.

use vstd::prelude::*;

verus! {

/// Delay after which a packet that was sent and not acknowledged counts as
/// lost, in milliseconds.
pub const CLEAR_UNACKED_PACKETS_DELAY_MS: i64 = 5000;

/// Whether more than `delay` milliseconds lie between `since` and `now`.
pub open spec fn spec_elapsed_exceeds(now: i64, since: i64, delay: i64) -> bool {
    now - since > delay
}

/// `chrono::Duration::milliseconds` on each argument, and the comparison of
/// the two durations: a duration of more milliseconds is the longer one.
/// `i64::MIN` milliseconds is no duration, and is left out.
#[verifier::external_body]
fn duration_longer(a_ms: i64, b_ms: i64) -> (longer: bool)
    requires
        a_ms > i64::MIN,
        b_ms > i64::MIN,
    ensures
        longer == (a_ms > b_ms),
{
    chrono::Duration::milliseconds(a_ms) > chrono::Duration::milliseconds(b_ms)
}

/// Whether more than `delay` milliseconds lie between `since` and `now`,
/// for any three values: a span too long for a duration is decided by its
/// sign.
pub fn elapsed_exceeds(now: i64, since: i64, delay: i64) -> (exceeds: bool)
    ensures
        exceeds == spec_elapsed_exceeds(now, since, delay),
{
    match now.checked_sub(since) {
        None => now > since,
        Some(elapsed) => {
            if elapsed == i64::MIN {
                false
            } else if delay == i64::MIN {
                true
            } else {
                duration_longer(elapsed, delay)
            }
        },
    }
}

} // verus!
