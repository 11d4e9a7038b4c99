//! The sleep decision of a fixed-rate polling loop.
//!
//! A driving loop runs an action over and over and must keep at least a
//! configured period between the start times of two successive iterations.
//! After each iteration it measures how long the iteration took and asks
//! [`remaining_sleep`] how long to sleep before the next one.  The
//! measurement may fail (a wall clock can be adjusted backwards); a failed
//! measurement is handed in as `None` and answered conservatively with the
//! full period.

use vstd::prelude::*;

verus! {

/// How long to sleep before the next iteration: the part of `period_millis`
/// that the measured elapsed time has not already used up.
pub open spec fn remaining_sleep_spec(period_millis: u64, elapsed_millis: Option<u64>) -> u64 {
    match elapsed_millis {
        Some(elapsed) => if elapsed < period_millis {
            (period_millis - elapsed) as u64
        } else {
            0u64
        },
        None => period_millis,
    }
}

/// Decide how long a fixed-rate loop must sleep after an iteration.
///
/// `elapsed_millis` is the measured duration of the iteration that just
/// finished, or `None` when the clock could not measure it (for example
/// because it was adjusted backwards in the meantime).  An iteration that
/// took the period or longer gets no sleep at all — the loop proceeds
/// immediately, with no catch-up burst later, because the decision depends
/// only on the most recent measurement.  An unmeasurable iteration gets the
/// full period, never zero.
pub fn remaining_sleep(period_millis: u64, elapsed_millis: Option<u64>) -> (sleep: u64)
    ensures
        sleep == remaining_sleep_spec(period_millis, elapsed_millis),
{
    match elapsed_millis {
        Some(elapsed) => {
            if elapsed < period_millis {
                period_millis - elapsed
            } else {
                0
            }
        },
        None => period_millis,
    }
}

/// The loop keeps its cadence: if one iteration starts at `start`, really
/// runs for `actual_elapsed` milliseconds, and the loop then sleeps what
/// [`remaining_sleep`] decided, the next iteration starts no earlier than
/// `start + period_millis`.  When the measurement is accurate and the
/// iteration was faster than the period, the next start lands exactly on
/// `start + period_millis`: a slow iteration shrinks the following sleep
/// instead of shifting the whole schedule.
///
/// The measurement hypothesis says only that a successful measurement is
/// accurate; a failed measurement (`None`) is covered with no assumption
/// beyond the actual elapsed time being non-negative.
pub proof fn lemma_minimum_spacing(
    period_millis: u64,
    start: int,
    actual_elapsed: int,
    measured: Option<u64>,
)
    requires
        actual_elapsed >= 0,
        measured matches Some(elapsed) ==> elapsed == actual_elapsed,
    ensures
        start + actual_elapsed + remaining_sleep_spec(period_millis, measured) >= start
            + period_millis,
        (measured matches Some(elapsed) && elapsed < period_millis) ==> start + actual_elapsed
            + remaining_sleep_spec(period_millis, measured) == start + period_millis,
        (measured matches Some(elapsed) && elapsed >= period_millis) ==> remaining_sleep_spec(
            period_millis,
            measured,
        ) == 0,
{
}

} // verus!
