//! Value types of the task engine.

use vstd::prelude::*;

verus! {

/// Recurrence policy of a task.
///
/// `Interval` tasks fall due a fixed number of days after their latest
/// completion; `Schedule` tasks follow a fixed period grid anchored at the
/// task's first (synthesized) completion date.
#[derive(Debug, Clone, Copy, PartialEq, Eq, Structural)]
pub enum Routine {
    Schedule,
    Interval,
}

/// Stable identity of a task, assigned at creation.
#[derive(Debug, Clone, Copy, PartialEq, Eq, Structural)]
pub struct TaskId(i32);

impl View for TaskId {
    type V = int;

    closed spec fn view(&self) -> int {
        self.0 as int
    }
}

impl TaskId {
    /// Wraps a raw identifier.
    pub fn new(value: i32) -> (r: TaskId)
        ensures
            r@ == value,
    {
        TaskId(value)
    }

    /// The raw identifier.
    pub fn value(&self) -> (v: i32)
        ensures
            v == self@,
    {
        self.0
    }
}

/// How far a task is from falling due: a non-negative count of days either
/// until the due day (`Upcoming`) or since it passed (`Overdue`).
#[derive(Debug, Clone, Copy, PartialEq, Eq, Structural)]
pub enum Deadline {
    Upcoming(u64),
    Overdue(u64),
}

/// The deadline described by a signed count of days remaining until the due
/// day: zero or more days left is `Upcoming`, fewer is `Overdue`.
pub open spec fn spec_deadline_of(remaining: int) -> Deadline {
    if remaining >= 0 {
        Deadline::Upcoming(remaining as u64)
    } else {
        Deadline::Overdue((-remaining) as u64)
    }
}

impl Deadline {
    /// Builds the deadline for a signed count of days remaining.
    pub fn from_days(remaining: i64) -> (r: Deadline)
        requires
            remaining != i64::MIN,
        ensures
            r == spec_deadline_of(remaining as int),
    {
        if remaining >= 0 {
            Deadline::Upcoming(remaining as u64)
        } else {
            Deadline::Overdue((-remaining) as u64)
        }
    }
}

} // verus!
