//! The deadline calculator.
//!
//! Given a task's recurrence policy, duration, anchor date, latest
//! completion date and "today", this computes how many days remain until the
//! task is next due, or by how many days it is overdue.

use vstd::prelude::*;
use vstd::arithmetic::div_mod::{
    lemma_fundamental_div_mod, lemma_fundamental_div_mod_converse,
    lemma_mod_division_less_than_divisor,
};
use crate::dates::Date;
use crate::types::{spec_deadline_of, Deadline, Routine};

verus! {

/// The day on which the task next falls due.
///
/// Interval tasks are due `duration` days after the latest completion.
/// Schedule tasks follow the period grid anchored at `anchor`: with `k` the
/// index of the grid period containing the latest completion, the completion
/// settles the period after that one, so the task is due at the end of
/// period `k + 1`, which is day `anchor + (k + 2) * duration`.
pub open spec fn spec_due_day(routine: Routine, duration: int, anchor: int, last_completed: int) -> int {
    match routine {
        Routine::Interval => last_completed + duration,
        Routine::Schedule => {
            let k = (last_completed - anchor) / duration;
            anchor + (k + 2) * duration
        },
    }
}

/// The deadline seen on `today` for the given policy, duration, anchor and
/// latest completion.
pub open spec fn spec_deadline(
    routine: Routine,
    duration: int,
    anchor: int,
    last_completed: int,
    today: int,
) -> Deadline {
    spec_deadline_of(spec_due_day(routine, duration, anchor, last_completed) - today)
}

/// Computes the deadline of a task as seen on `today`.
///
/// `anchor` is the date of the task's first (synthesized) completion; it is
/// only consulted for `Schedule` tasks, and must not lie after the latest
/// completion.
pub fn next_deadline(
    routine: Routine,
    duration_days: u16,
    anchor: Date,
    last_completed: Date,
    today: Date,
) -> (d: Deadline)
    requires
        duration_days > 0,
        anchor.day() <= last_completed.day(),
    ensures
        d == spec_deadline(
            routine,
            duration_days as int,
            anchor.day(),
            last_completed.day(),
            today.day(),
        ),
{
    let last = last_completed.day_number();
    let dur = duration_days as i64;
    let due: i64 = match routine {
        Routine::Interval => last + dur,
        Routine::Schedule => {
            let anchor_day = anchor.day_number();
            let diff = last - anchor_day;
            let k = ((diff as u64) / (dur as u64)) as i64;
            proof {
                lemma_fundamental_div_mod(diff as int, dur as int);
                lemma_mod_division_less_than_divisor(diff as int, dur as int);
                assert(dur * k <= diff);
                assert(0 <= k * dur <= diff && (k + 2) * dur == k * dur + 2 * dur)
                    by (nonlinear_arith)
                    requires
                        dur * k <= diff,
                        k >= 0,
                        dur > 0,
                ;
            }
            anchor_day + (k + 2) * dur
        },
    };
    let remaining = due - today.day_number();
    Deadline::from_days(remaining)
}

/// Interval law: completing an interval task on day `d` always puts the due
/// day exactly `duration` days after `d`.  Neither the anchor date nor any
/// earlier completion enters into it.
pub proof fn lemma_interval_completion(duration: int, anchor1: int, anchor2: int, d: int, today: int)
    ensures
        spec_due_day(Routine::Interval, duration, anchor1, d) == d + duration,
        spec_deadline(Routine::Interval, duration, anchor1, d, today) == spec_deadline(
            Routine::Interval,
            duration,
            anchor2,
            d,
            today,
        ),
{
}

/// Schedule law: two completion dates falling inside the same grid period
/// (period `k` runs from `anchor + k * duration` up to but excluding
/// `anchor + (k + 1) * duration`) give the same deadline, so re-submitting a
/// completion inside an already-satisfied period leaves the deadline
/// unchanged.
pub proof fn lemma_schedule_same_period_idempotent(
    duration: int,
    anchor: int,
    k: int,
    d1: int,
    d2: int,
    today: int,
)
    requires
        duration > 0,
        anchor + k * duration <= d1 < anchor + (k + 1) * duration,
        anchor + k * duration <= d2 < anchor + (k + 1) * duration,
    ensures
        spec_deadline(Routine::Schedule, duration, anchor, d1, today) == spec_deadline(
            Routine::Schedule,
            duration,
            anchor,
            d2,
            today,
        ),
{
    lemma_period_index(duration, anchor, k, d1);
    lemma_period_index(duration, anchor, k, d2);
}

/// The grid period containing a day is found by floored division: a day at
/// offset `k` whole periods from the anchor has period index `k`.
pub proof fn lemma_period_index(duration: int, anchor: int, k: int, d: int)
    requires
        duration > 0,
        anchor + k * duration <= d < anchor + (k + 1) * duration,
    ensures
        (d - anchor) / duration == k,
{
    let r = d - anchor - k * duration;
    assert((k + 1) * duration == k * duration + duration) by (nonlinear_arith);
    lemma_fundamental_div_mod_converse(d - anchor, duration, k, r);
}

} // verus!
