//! Time spent in named tasks, summed over every run of each task. Durations
//! are counted in nanoseconds; the clock that measures a run is read by the
//! caller.

use vstd::prelude::*;
use crate::str_map::StrMap;

verus! {

broadcast use vstd::string::group_string_axioms;

/// The longest duration there is (`Duration::MAX`), in nanoseconds.
pub const MAX_DURATION_NANOS: u128 = 18446744073709551615999999999;

/// The total time spent in each named task, in nanoseconds.
pub struct TaskTimer {
    pub timers: StrMap<u128>,
}

/// A task that has been started and not yet finished.
pub struct TaskGuard {
    pub task_name: String,
}

/// The time recorded for `name`, `0` for a task never run.
pub open spec fn total_of(m: Map<Seq<char>, u128>, name: Seq<char>) -> int {
    if m.dom().contains(name) {
        m[name] as int
    } else {
        0
    }
}

impl TaskTimer {
    /// No task has run yet.
    pub fn new() -> (t: TaskTimer)
        ensures
            t.timers@ == Map::<Seq<char>, u128>::empty(),
    {
        TaskTimer { timers: StrMap::new() }
    }

    /// Adds the duration of one run of `task_name` to its total.
    pub fn add_elapsed(&mut self, task_name: &str, elapsed_nanos: u128)
        requires
            total_of(old(self).timers@, task_name@) + elapsed_nanos <= MAX_DURATION_NANOS,
        ensures
            final(self).timers@ == old(self).timers@.insert(
                task_name@,
                (total_of(old(self).timers@, task_name@) + elapsed_nanos) as u128,
            ),
    {
        let name = task_name.to_string();
        let current: u128 = match self.timers.get(&name) {
            Some(d) => *d,
            None => 0,
        };
        self.timers.insert(name, current + elapsed_nanos);
    }

    /// The total time spent in `task_name`, if it ever ran.
    pub fn get_duration(&self, task_name: &str) -> (d: Option<u128>)
        ensures
            self.timers@.dom().contains(task_name@) ==> d == Some(self.timers@[task_name@]),
            !self.timers@.dom().contains(task_name@) ==> d is None,
    {
        let name = task_name.to_string();
        match self.timers.get(&name) {
            Some(d) => Some(*d),
            None => None,
        }
    }
}

/// Starts a run of `task_name`.
pub fn start_task(task_name: &str) -> (g: TaskGuard)
    ensures
        g.task_name@ == task_name@,
{
    TaskGuard { task_name: task_name.to_string() }
}

/// Ends the run `guard` that took `elapsed_nanos`, adding it to its task's total.
pub fn finish_task(timer: &mut TaskTimer, guard: TaskGuard, elapsed_nanos: u128)
    requires
        total_of(old(timer).timers@, guard.task_name@) + elapsed_nanos <= MAX_DURATION_NANOS,
    ensures
        final(timer).timers@ == old(timer).timers@.insert(
            guard.task_name@,
            (total_of(old(timer).timers@, guard.task_name@) + elapsed_nanos) as u128,
        ),
{
    timer.add_elapsed(guard.task_name.as_str(), elapsed_nanos);
}

/// The total time spent in `task_name`, if it ever ran.
pub fn get_duration(timer: &TaskTimer, task_name: &str) -> (d: Option<u128>)
    ensures
        timer.timers@.dom().contains(task_name@) ==> d == Some(timer.timers@[task_name@]),
        !timer.timers@.dom().contains(task_name@) ==> d is None,
{
    timer.get_duration(task_name)
}

/// A finished run is added to what earlier runs of the same task took.
pub proof fn law_durations_accumulate(before: Map<Seq<char>, u128>, name: Seq<char>, elapsed: u128)
    requires
        total_of(before, name) + elapsed <= MAX_DURATION_NANOS,
    ensures
        total_of(before.insert(name, (total_of(before, name) + elapsed) as u128), name)
            == total_of(before, name) + elapsed,
{
}

} // verus!
