//! Named performance counters.

use vstd::prelude::*;
use crate::str_map::StrMap;

verus! {

broadcast use vstd::string::group_string_axioms;

/// A performance counter: the count reported in the current frame.
#[derive(Copy, Clone, Debug, Default)]
pub struct Counter {
    pub count: u64,
}

/// The performance counters, by name.
pub struct PerfCounters {
    pub counters: StrMap<Counter>,
}

/// The count of `name`, `0` for an unknown counter.
pub open spec fn count_of(m: Map<Seq<char>, Counter>, name: Seq<char>) -> u64 {
    if m.dom().contains(name) {
        m[name].count
    } else {
        0
    }
}

impl PerfCounters {
    /// No counters.
    pub fn new() -> (p: PerfCounters)
        ensures
            p.counters@ == Map::<Seq<char>, Counter>::empty(),
    {
        PerfCounters { counters: StrMap::new() }
    }

    /// Sets the count of the counter `counter_name`, creating it if needed.
    pub fn update_counter(&mut self, counter_name: &str, count: u64)
        ensures
            final(self).counters@ == old(self).counters@.insert(counter_name@, Counter { count }),
    {
        self.counters.insert(counter_name.to_string(), Counter { count });
    }

    /// Starts a new frame: every count goes back to 0.
    pub fn new_frame(&mut self)
        ensures
            final(self).counters@.dom() == old(self).counters@.dom(),
            forall|k: Seq<char>| #[trigger] final(self).counters@.dom().contains(k) ==> final(self).counters@[k].count == 0,
    {
        let keys = self.counters.keys();
        let ghost d0 = self.counters@.dom();
        let mut i: usize = 0;
        while i < keys.len()
            invariant
                i <= keys@.len(),
                self.counters@.dom() == d0,
                forall|j: int| 0 <= j < keys@.len() ==> d0.contains(#[trigger] keys@[j]@),
                forall|k: Seq<char>| d0.contains(k) ==> exists|j: int| 0 <= j < keys@.len() && #[trigger] keys@[j]@ == k,
                forall|j: int| 0 <= j < i ==> #[trigger] self.counters@[keys@[j]@].count == 0,
            decreases keys@.len() - i,
        {
            let ghost kk = keys@[i as int]@;
            self.counters.insert(keys[i].clone(), Counter { count: 0 });
            proof {
                assert(self.counters@.dom() =~= d0);
                assert forall|j: int| 0 <= j < i + 1 implies #[trigger] self.counters@[keys@[j]@].count == 0 by {
                    if keys@[j]@ != kk {
                    }
                }
            }
            i = i + 1;
        }
        proof {
            assert forall|k: Seq<char>| #[trigger] self.counters@.dom().contains(k) implies self.counters@[k].count == 0 by {
                let j = choose|j: int| 0 <= j < keys@.len() && #[trigger] keys@[j]@ == k;
                assert(self.counters@[keys@[j]@].count == 0);
            }
        }
    }

    /// The count of `counter_name`, 0 for an unknown counter.
    pub fn get_counter(&self, counter_name: &str) -> (c: u64)
        ensures
            c == count_of(self.counters@, counter_name@),
    {
        match self.counters.get(&counter_name.to_string()) {
            Some(counter) => counter.count,
            None => 0,
        }
    }

    /// Removes every counter.
    pub fn reset_counters(&mut self)
        ensures
            final(self).counters@ == Map::<Seq<char>, Counter>::empty(),
    {
        self.counters.clear();
    }
}

/// Starts a new frame for every counter.
pub fn perf_counters_new_frame(counters: &mut PerfCounters)
    ensures
        final(counters).counters@.dom() == old(counters).counters@.dom(),
        forall|k: Seq<char>| #[trigger] final(counters).counters@.dom().contains(k) ==> final(counters).counters@[k].count == 0,
{
    counters.new_frame();
}

/// Removes every counter.
pub fn reset_perf_counters(counters: &mut PerfCounters)
    ensures
        final(counters).counters@ == Map::<Seq<char>, Counter>::empty(),
{
    counters.reset_counters();
}

/// Sets the count of the counter `counter_name`.
pub fn perf_counter(counters: &mut PerfCounters, counter_name: &str, count: u64)
    ensures
        final(counters).counters@ == old(counters).counters@.insert(counter_name@, Counter { count }),
{
    counters.update_counter(counter_name, count);
}

/// Adds `inc` to the count of the counter `counter_name`; the sum must fit in a `u64`.
pub fn perf_counter_inc(counters: &mut PerfCounters, counter_name: &str, inc: u64)
    requires
        count_of(old(counters).counters@, counter_name@) + inc <= u64::MAX,
    ensures
        final(counters).counters@ == old(counters).counters@.insert(
            counter_name@,
            Counter { count: (count_of(old(counters).counters@, counter_name@) + inc) as u64 },
        ),
{
    let current_value = counters.get_counter(counter_name);
    counters.update_counter(counter_name, current_value + inc);
}

/// The count of `counter_name`, 0 for an unknown counter.
pub fn get_perf_counter(counters: &PerfCounters, counter_name: &str) -> (c: u64)
    ensures
        c == count_of(counters.counters@, counter_name@),
{
    counters.get_counter(counter_name)
}

} // verus!
