//! Profiling: timings, counters and memory figures per operation, and
//! summaries of them.
pub mod logger;
pub mod monitor;

use vstd::prelude::*;
use std::time::Instant;
use crate::named::NamedValues;
use crate::text::owned;
use vstd::set_lib::{set_int_range, lemma_int_range, lemma_len_subset};

verus! {

#[verifier::external_type_specification]
#[verifier::external_body]
pub struct ExInstant(Instant);

/// The number of nanoseconds in `Duration::MAX`: `u64::MAX` seconds and
/// 999 999 999 nanoseconds.
pub const MAX_DURATION_NANOS: u128 = 18446744073709551615999999999;

/// Calls `Instant::now`; nothing is known of the instant it gives.
#[verifier::external_body]
fn now() -> Instant {
    Instant::now()
}

/// Calls `Instant::elapsed` and `Duration::as_nanos`: the time since
/// `start`, in nanoseconds. It depends on the clock; all that holds of every
/// outcome is that a `Duration` holds at most `Duration::MAX`.
#[verifier::external_body]
fn elapsed_nanos(start: &Instant) -> (r: u128)
    ensures
        r <= MAX_DURATION_NANOS,
{
    start.elapsed().as_nanos()
}

/// The sum of a list of durations.
pub open spec fn nanos_sum(s: Seq<u128>) -> nat
    decreases s.len(),
{
    if s.len() == 0 { 0 } else { nanos_sum(s.drop_last()) + (s.last() as nat) }
}

/// The least of a list of durations; zero for none.
pub open spec fn nanos_min(s: Seq<u128>) -> u128
    decreases s.len(),
{
    if s.len() == 0 {
        0
    } else if s.len() == 1 {
        s[0]
    } else if s.last() < nanos_min(s.drop_last()) {
        s.last()
    } else {
        nanos_min(s.drop_last())
    }
}

/// The greatest of a list of durations; zero for none.
pub open spec fn nanos_max(s: Seq<u128>) -> u128
    decreases s.len(),
{
    if s.len() == 0 {
        0
    } else if s.len() == 1 {
        s[0]
    } else if s.last() > nanos_max(s.drop_last()) {
        s.last()
    } else {
        nanos_max(s.drop_last())
    }
}

/// The durations can be summed: their total fits in a `Duration`, and their
/// number taken as a `u32` (as the average divides by it) is not zero
/// unless there are none.
pub open spec fn summable(s: Seq<u128>) -> bool {
    &&& nanos_sum(s) <= MAX_DURATION_NANOS
    &&& (s.len() == 0 || (s.len() as u32) != 0)
}

/// The figures of one operation.
#[derive(Debug, Clone)]
pub struct OperationStats {
    pub operation: String,
    pub count: u64,
    /// In nanoseconds, as are the other times.
    pub total_time: u128,
    pub avg_time: u128,
    pub min_time: u128,
    pub max_time: u128,
    pub memory_usage: usize,
}

/// `s` holds the figures of `operation` with the given durations, count and
/// memory: the total time, the average (the total divided by the number of
/// durations taken as a `u32`, rounded down), the least and the greatest
/// time, all zero when there is no duration.
pub open spec fn stats_for(s: OperationStats, operation: Seq<char>, durations: Seq<u128>, count: u64, memory: usize) -> bool {
    &&& s.operation@ == operation
    &&& s.count == count
    &&& s.total_time == nanos_sum(durations)
    &&& s.avg_time == if durations.len() == 0 { 0 } else { nanos_sum(durations) / ((durations.len() as u32) as nat) }
    &&& s.min_time == nanos_min(durations)
    &&& s.max_time == nanos_max(durations)
    &&& s.memory_usage == memory
}

impl OperationStats {
    /// The figures of an operation from its durations, count and memory.
    pub fn new(operation: String, durations: Vec<u128>, count: u64, memory_usage: usize) -> (r: Self)
        requires
            summable(durations@),
        ensures
            stats_for(r, operation@, durations@, count, memory_usage),
    {
        let mut total: u128 = 0;
        let mut min_time: u128 = 0;
        let mut max_time: u128 = 0;
        let mut i: usize = 0;
        while i < durations.len()
            invariant
                i <= durations@.len(),
                summable(durations@),
                total == nanos_sum(durations@.take(i as int)),
                min_time == nanos_min(durations@.take(i as int)),
                max_time == nanos_max(durations@.take(i as int)),
            decreases durations.len() - i,
        {
            proof {
                lemma_sum_prefix(durations@, i as int + 1);
                assert(durations@.take(i + 1).drop_last() =~= durations@.take(i as int));
            }
            let d = durations[i];
            if i == 0 || d < min_time {
                min_time = d;
            }
            if i == 0 || d > max_time {
                max_time = d;
            }
            total = total + d;
            i = i + 1;
        }
        proof {
            assert(durations@.take(i as int) =~= durations@);
        }
        let avg_time = if durations.len() == 0 { 0 } else { total / (durations.len() as u32) as u128 };
        OperationStats {
            operation,
            count,
            total_time: total,
            avg_time,
            min_time,
            max_time,
            memory_usage,
        }
    }
}

/// The sum of a prefix is at most the sum of the whole list.
pub proof fn lemma_sum_prefix(s: Seq<u128>, k: int)
    requires
        0 <= k <= s.len(),
    ensures
        nanos_sum(s.take(k)) <= nanos_sum(s),
    decreases s.len(),
{
    if k < s.len() {
        lemma_sum_prefix(s.drop_last(), k);
        assert(s.drop_last().take(k) =~= s.take(k));
    } else {
        assert(s.take(k) =~= s);
    }
}

/// The durations recorded in a map of timings for an operation; none when
/// it has none.
pub open spec fn durations_in(m: Map<Seq<char>, Seq<u128>>, op: Seq<char>) -> Seq<u128> {
    if m.contains_key(op) { m[op] } else { Seq::empty() }
}

/// The value of an operation in a map of figures; zero when it has none.
pub open spec fn figure_in<T>(m: Map<Seq<char>, T>, op: Seq<char>, zero: T) -> T {
    if m.contains_key(op) { m[op] } else { zero }
}

/// The counted operations that were not timed, in order.
pub open spec fn untimed(counted: Seq<Seq<char>>, timed: Seq<Seq<char>>) -> Seq<Seq<char>>
    decreases counted.len(),
{
    if counted.len() == 0 {
        Seq::empty()
    } else {
        let r = untimed(counted.drop_last(), timed);
        if timed.contains(counted.last()) { r } else { r.push(counted.last()) }
    }
}

/// The sum of the counters of the listed operations.
pub open spec fn count_total(keys: Seq<Seq<char>>, m: Map<Seq<char>, u64>) -> nat
    decreases keys.len(),
{
    if keys.len() == 0 { 0 } else { count_total(keys.drop_last(), m) + (m[keys.last()] as nat) }
}

/// The sum of the memory figures of the listed operations.
pub open spec fn memory_total(keys: Seq<Seq<char>>, m: Map<Seq<char>, usize>) -> nat
    decreases keys.len(),
{
    if keys.len() == 0 { 0 } else { memory_total(keys.drop_last(), m) + (m[keys.last()] as nat) }
}

/// A prefix of the operations has no larger a total of counters.
pub proof fn lemma_count_total_prefix(keys: Seq<Seq<char>>, m: Map<Seq<char>, u64>, k: int)
    requires
        0 <= k <= keys.len(),
    ensures
        count_total(keys.take(k), m) <= count_total(keys, m),
    decreases keys.len(),
{
    if k < keys.len() {
        lemma_count_total_prefix(keys.drop_last(), m, k);
        assert(keys.drop_last().take(k) =~= keys.take(k));
    } else {
        assert(keys.take(k) =~= keys);
    }
}

/// A prefix of the operations has no larger a total of memory figures.
pub proof fn lemma_memory_total_prefix(keys: Seq<Seq<char>>, m: Map<Seq<char>, usize>, k: int)
    requires
        0 <= k <= keys.len(),
    ensures
        memory_total(keys.take(k), m) <= memory_total(keys, m),
    decreases keys.len(),
{
    if k < keys.len() {
        lemma_memory_total_prefix(keys.drop_last(), m, k);
        assert(keys.drop_last().take(k) =~= keys.take(k));
    } else {
        assert(keys.take(k) =~= keys);
    }
}

/// `ops` holds, in order, the figures of each of the operations `names` of
/// the profiler.
pub open spec fn stats_of_all(p: Profiler, names: Seq<Seq<char>>, ops: Seq<OperationStats>) -> bool {
    &&& ops.len() == names.len()
    &&& forall|i: int| 0 <= i < names.len() ==> stats_for(#[trigger] ops[i], names[i],
            durations_in(p.timing_map(), names[i]), figure_in(p.counter_map(), names[i], 0),
            figure_in(p.memory_map(), names[i], 0))
}

/// The durations of every timed operation can be summed.
pub open spec fn all_summable(p: Profiler) -> bool {
    forall|k: Seq<char>| #[trigger] p.timing_map().contains_key(k) ==> summable(p.timing_map()[k])
}

/// The profiler: for each operation, the durations timed, a counter and
/// the last memory figure recorded; and the timers running.
pub struct Profiler {
    timings: NamedValues<Vec<u128>>,
    counters: NamedValues<u64>,
    memory_usage: NamedValues<usize>,
    active_timers: NamedValues<Instant>,
}

/// A running timer of an operation, ended by `finish`.
pub struct TimerGuard {
    operation: String,
}

impl TimerGuard {
    /// The operation timed.
    pub closed spec fn operation(&self) -> Seq<char> {
        self.operation@
    }

    /// Ends the timer (see `Profiler::end_timer`).
    pub fn finish(self, profiler: &mut Profiler)
        requires
            old(profiler).wf(),
        ensures
            final(profiler).wf(),
            timer_ended(*old(profiler), *final(profiler), self.operation()),
    {
        profiler.end_timer(self.operation.as_str());
    }
}

/// `p1` is `p0` after ending the timer of `op`: when it was running, it is
/// removed and the time since it started is appended to the durations of
/// `op` (which is listed last among the timed operations if it was not
/// among them); otherwise nothing changes.
pub open spec fn timer_ended(p0: Profiler, p1: Profiler, op: Seq<char>) -> bool {
    &&& p1.counter_map() == p0.counter_map()
    &&& p1.counter_keys() == p0.counter_keys()
    &&& p1.memory_map() == p0.memory_map()
    &&& if p0.running().contains(op) {
        &&& p1.running() == p0.running().remove(op)
        &&& exists|d: u128| d <= MAX_DURATION_NANOS
            && #[trigger] p1.timing_map() == p0.timing_map().insert(op, durations_in(p0.timing_map(), op).push(d))
        &&& p1.timing_keys() == if p0.timing_keys().contains(op) { p0.timing_keys() } else { p0.timing_keys().push(op) }
    } else {
        &&& p1.running() == p0.running()
        &&& p1.timing_map() == p0.timing_map()
        &&& p1.timing_keys() == p0.timing_keys()
    }
}

impl Profiler {
    /// The durations of each timed operation.
    pub closed spec fn timing_map(&self) -> Map<Seq<char>, Seq<u128>> {
        Map::new(|k: Seq<char>| self.timings.map().contains_key(k), |k: Seq<char>| self.timings.map()[k]@)
    }

    /// The timed operations, in the order they were first timed.
    pub closed spec fn timing_keys(&self) -> Seq<Seq<char>> {
        self.timings.keys()
    }

    /// The counter of each counted operation.
    pub closed spec fn counter_map(&self) -> Map<Seq<char>, u64> {
        self.counters.map()
    }

    /// The counted operations, in the order they were first counted.
    pub closed spec fn counter_keys(&self) -> Seq<Seq<char>> {
        self.counters.keys()
    }

    /// The last memory figure of each operation.
    pub closed spec fn memory_map(&self) -> Map<Seq<char>, usize> {
        self.memory_usage.map()
    }

    /// The operations with a memory figure, in the order they were first
    /// recorded.
    pub closed spec fn memory_keys(&self) -> Seq<Seq<char>> {
        self.memory_usage.keys()
    }

    /// The operations whose timer runs.
    pub closed spec fn running(&self) -> Set<Seq<char>> {
        self.active_timers.map().dom()
    }

    /// The maps keep each name once.
    pub closed spec fn wf(&self) -> bool {
        &&& self.timings.wf()
        &&& self.counters.wf()
        &&& self.memory_usage.wf()
        &&& self.active_timers.wf()
    }

    /// A profiler with nothing recorded.
    pub fn new() -> (r: Self)
        ensures
            r.wf(),
            r.timing_map() == Map::<Seq<char>, Seq<u128>>::empty(),
            r.timing_keys() == Seq::<Seq<char>>::empty(),
            r.counter_map() == Map::<Seq<char>, u64>::empty(),
            r.counter_keys() == Seq::<Seq<char>>::empty(),
            r.memory_map() == Map::<Seq<char>, usize>::empty(),
            r.memory_keys() == Seq::<Seq<char>>::empty(),
            r.running() == Set::<Seq<char>>::empty(),
    {
        let r = Profiler {
            timings: NamedValues::new(),
            counters: NamedValues::new(),
            memory_usage: NamedValues::new(),
            active_timers: NamedValues::new(),
        };
        assert(r.timing_map() =~= Map::<Seq<char>, Seq<u128>>::empty());
        assert(r.running() =~= Set::<Seq<char>>::empty());
        r
    }

    /// Starts (or restarts) the timer of an operation.
    pub fn start_timer(&mut self, operation: &str) -> (r: TimerGuard)
        requires
            old(self).wf(),
        ensures
            final(self).wf(),
            r.operation() == operation@,
            final(self).running() == old(self).running().insert(operation@),
            final(self).timing_map() == old(self).timing_map(),
            final(self).timing_keys() == old(self).timing_keys(),
            final(self).counter_map() == old(self).counter_map(),
            final(self).counter_keys() == old(self).counter_keys(),
            final(self).memory_map() == old(self).memory_map(),
            final(self).memory_keys() == old(self).memory_keys(),
    {
        self.active_timers.insert(owned(operation), now());
        proof {
            assert(self.running() =~= old(self).running().insert(operation@));
        }
        TimerGuard { operation: owned(operation) }
    }

    /// Ends the timer of an operation (see `timer_ended`).
    pub fn end_timer(&mut self, operation: &str)
        requires
            old(self).wf(),
        ensures
            final(self).wf(),
            timer_ended(*old(self), *final(self), operation@),
            final(self).memory_keys() == old(self).memory_keys(),
    {
        match self.active_timers.remove(operation) {
            Some(start) => {
                let d = elapsed_nanos(&start);
                let mut list: Vec<u128> = match self.timings.get(operation) {
                    Some(l) => copy_nanos(l),
                    None => Vec::new(),
                };
                let ghost before = list@;
                list.push(d);
                proof {
                    self.timings.lemma_keys();
                }
                self.timings.insert(owned(operation), list);
                proof {
                    assert(before == durations_in(old(self).timing_map(), operation@));
                    assert(self.timing_map() =~= old(self).timing_map().insert(operation@, before.push(d)));
                    assert(self.running() =~= old(self).running().remove(operation@));
                }
            },
            None => {
                assert(self.running() =~= old(self).running());
            },
        }
    }

    /// Adds one to the counter of an operation.
    pub fn increment_counter(&mut self, operation: &str)
        requires
            old(self).wf(),
            figure_in(old(self).counter_map(), operation@, 0) < u64::MAX,
        ensures
            final(self).wf(),
            final(self).counter_map() == old(self).counter_map().insert(operation@,
                (figure_in(old(self).counter_map(), operation@, 0) + 1) as u64),
            final(self).counter_keys() == if old(self).counter_keys().contains(operation@) {
                old(self).counter_keys()
            } else {
                old(self).counter_keys().push(operation@)
            },
            final(self).timing_map() == old(self).timing_map(),
            final(self).timing_keys() == old(self).timing_keys(),
            final(self).memory_map() == old(self).memory_map(),
            final(self).memory_keys() == old(self).memory_keys(),
            final(self).running() == old(self).running(),
    {
        let n: u64 = match self.counters.get(operation) {
            Some(c) => *c,
            None => 0,
        };
        self.counters.insert(owned(operation), n + 1);
    }

    /// Records the memory figure of an operation, replacing the last one.
    pub fn record_memory_usage(&mut self, operation: &str, bytes: usize)
        requires
            old(self).wf(),
        ensures
            final(self).wf(),
            final(self).memory_map() == old(self).memory_map().insert(operation@, bytes),
            final(self).memory_keys() == if old(self).memory_keys().contains(operation@) {
                old(self).memory_keys()
            } else {
                old(self).memory_keys().push(operation@)
            },
            final(self).timing_map() == old(self).timing_map(),
            final(self).timing_keys() == old(self).timing_keys(),
            final(self).counter_map() == old(self).counter_map(),
            final(self).counter_keys() == old(self).counter_keys(),
            final(self).running() == old(self).running(),
    {
        self.memory_usage.insert(owned(operation), bytes);
    }

    /// The figures of an operation: its durations, its counter and its
    /// memory figure, each zero or empty when there is none.
    pub fn get_operation_stats(&self, operation: &str) -> (r: OperationStats)
        requires
            self.wf(),
            summable(durations_in(self.timing_map(), operation@)),
        ensures
            stats_for(r, operation@, durations_in(self.timing_map(), operation@),
                figure_in(self.counter_map(), operation@, 0), figure_in(self.memory_map(), operation@, 0)),
    {
        let durations = match self.timings.get(operation) {
            Some(l) => copy_nanos(l),
            None => Vec::new(),
        };
        let count: u64 = match self.counters.get(operation) {
            Some(c) => *c,
            None => 0,
        };
        let memory: usize = match self.memory_usage.get(operation) {
            Some(m) => *m,
            None => 0,
        };
        OperationStats::new(owned(operation), durations, count, memory)
    }

    /// The figures of every operation, the timed ones first in the order
    /// they were first timed, then the counted ones that were not timed in
    /// the order they were first counted; with the sum of all counters and
    /// of all memory figures.
    pub fn get_summary(&self) -> (r: ProfilerSummary)
        requires
            self.wf(),
            all_summable(*self),
            count_total(self.counter_keys(), self.counter_map()) <= u64::MAX,
            memory_total(self.memory_keys(), self.memory_map()) <= usize::MAX,
        ensures
            r.total_operations == count_total(self.counter_keys(), self.counter_map()),
            r.total_memory_usage == memory_total(self.memory_keys(), self.memory_map()),
            stats_of_all(*self, self.timing_keys() + untimed(self.counter_keys(), self.timing_keys()), r.operations@),
    {
        let ghost tk = self.timing_keys();
        let ghost ck = self.counter_keys();
        let ghost mk = self.memory_keys();
        proof {
            self.timings.lemma_keys();
            self.counters.lemma_keys();
            self.memory_usage.lemma_keys();
        }
        let mut total_operations: u64 = 0;
        let mut i: usize = 0;
        while i < self.counters.len()
            invariant
                self.wf(),
                ck == self.counter_keys(),
                i <= ck.len(),
                total_operations == count_total(ck.take(i as int), self.counter_map()),
                count_total(ck, self.counter_map()) <= u64::MAX,
            decreases ck.len() - i,
        {
            let (_name, value) = self.counters.entry(i);
            proof {
                assert(ck.take(i + 1).drop_last() =~= ck.take(i as int));
                lemma_count_total_prefix(ck, self.counter_map(), i + 1);
            }
            total_operations = total_operations + *value;
            i = i + 1;
        }
        proof {
            assert(ck.take(i as int) =~= ck);
        }
        let mut total_memory: usize = 0;
        let mut i: usize = 0;
        while i < self.memory_usage.len()
            invariant
                self.wf(),
                mk == self.memory_keys(),
                i <= mk.len(),
                total_memory == memory_total(mk.take(i as int), self.memory_map()),
                memory_total(mk, self.memory_map()) <= usize::MAX,
            decreases mk.len() - i,
        {
            let (_name, value) = self.memory_usage.entry(i);
            proof {
                assert(mk.take(i + 1).drop_last() =~= mk.take(i as int));
                lemma_memory_total_prefix(mk, self.memory_map(), i + 1);
            }
            total_memory = total_memory + *value;
            i = i + 1;
        }
        proof {
            assert(mk.take(i as int) =~= mk);
        }
        let mut operations: Vec<OperationStats> = Vec::new();
        let mut i: usize = 0;
        while i < self.timings.len()
            invariant
                self.wf(),
                all_summable(*self),
                tk == self.timing_keys(),
                i <= tk.len(),
                stats_of_all(*self, tk.take(i as int), operations@),
            decreases tk.len() - i,
        {
            let (name, _list) = self.timings.entry(i);
            proof {
                if self.timing_map().contains_key(name@) {
                    assert(summable(self.timing_map()[name@]));
                }
            }
            let stats = self.get_operation_stats(name.as_str());
            operations.push(stats);
            i = i + 1;
            proof {
                assert(tk.take(i as int) =~= tk.take(i - 1).push(tk[i - 1]));
            }
        }
        proof {
            assert(tk.take(i as int) =~= tk);
            assert(tk + untimed(ck.take(0), tk) =~= tk);
        }
        let mut i: usize = 0;
        while i < self.counters.len()
            invariant
                self.wf(),
                all_summable(*self),
                tk == self.timing_keys(),
                ck == self.counter_keys(),
                forall|k: Seq<char>| #[trigger] self.timing_map().contains_key(k) <==> tk.contains(k),
                i <= ck.len(),
                stats_of_all(*self, tk + untimed(ck.take(i as int), tk), operations@),
            decreases ck.len() - i,
        {
            let (name, _value) = self.counters.entry(i);
            proof {
                assert(ck.take(i + 1).drop_last() =~= ck.take(i as int));
                assert(ck.take(i + 1).last() == ck[i as int]);
            }
            let timed = match self.timings.get(name.as_str()) {
                Some(_) => true,
                None => false,
            };
            if !timed {
                proof {
                    assert(!self.timing_map().contains_key(name@));
                    assert(durations_in(self.timing_map(), name@) =~= Seq::<u128>::empty());
                }
                let stats = self.get_operation_stats(name.as_str());
                operations.push(stats);
                proof {
                    let before = tk + untimed(ck.take(i as int), tk);
                    assert(tk + untimed(ck.take(i + 1), tk) =~= before.push(name@));
                }
            } else {
                proof {
                    assert(self.timing_map().contains_key(name@));
                    assert(tk + untimed(ck.take(i + 1), tk) =~= tk + untimed(ck.take(i as int), tk));
                }
            }
            i = i + 1;
        }
        proof {
            assert(ck.take(i as int) =~= ck);
        }
        ProfilerSummary { operations, total_operations, total_memory_usage: total_memory }
    }

    /// Forgets everything recorded, and the running timers.
    pub fn clear(&mut self)
        ensures
            final(self).wf(),
            final(self).timing_map() == Map::<Seq<char>, Seq<u128>>::empty(),
            final(self).timing_keys() == Seq::<Seq<char>>::empty(),
            final(self).counter_map() == Map::<Seq<char>, u64>::empty(),
            final(self).counter_keys() == Seq::<Seq<char>>::empty(),
            final(self).memory_map() == Map::<Seq<char>, usize>::empty(),
            final(self).memory_keys() == Seq::<Seq<char>>::empty(),
            final(self).running() == Set::<Seq<char>>::empty(),
    {
        self.timings.clear();
        self.counters.clear();
        self.memory_usage.clear();
        self.active_timers.clear();
        assert(self.timing_map() =~= Map::<Seq<char>, Seq<u128>>::empty());
        assert(self.running() =~= Set::<Seq<char>>::empty());
    }
}

/// A copy of a list of durations.
fn copy_nanos(v: &Vec<u128>) -> (r: Vec<u128>)
    ensures
        r@ == v@,
{
    let mut r: Vec<u128> = Vec::new();
    let mut i: usize = 0;
    while i < v.len()
        invariant
            i <= v@.len(),
            r@ == v@.take(i as int),
        decreases v.len() - i,
    {
        r.push(v[i]);
        i = i + 1;
        assert(r@ =~= v@.take(i as int));
    }
    assert(v@.take(i as int) =~= v@);
    r
}

/// Index `i` ranks before index `j` by `keys`: a larger key first, and of
/// equal keys the earlier index first (the order a stable sort from largest
/// to smallest gives).
pub open spec fn ranks_before(keys: Seq<u128>, i: int, j: int) -> bool {
    keys[i] > keys[j] || (keys[i] == keys[j] && i < j)
}

/// `idx` lists the first `k` indices of `keys` in the ranking: each index
/// once, in order, and every index left out ranks after all of them.
pub open spec fn is_top(keys: Seq<u128>, k: nat, idx: Seq<usize>) -> bool {
    &&& idx.len() == k
    &&& forall|a: int| 0 <= a < idx.len() ==> #[trigger] idx[a] < keys.len()
    &&& forall|a: int, b: int| 0 <= a < b < idx.len() ==> ranks_before(keys, #[trigger] idx[a] as int, #[trigger] idx[b] as int)
    &&& forall|a: int, j: int| 0 <= a < idx.len() && 0 <= j < keys.len() && !idx.contains(j as usize)
            ==> #[trigger] ranks_before(keys, idx[a] as int, j)
}

/// The operations ranked first come largest first, and there are no more of
/// them than asked for or than there are.
pub proof fn law_top_is_sorted(keys: Seq<u128>, k: nat, idx: Seq<usize>)
    requires
        is_top(keys, k, idx),
    ensures
        forall|a: int, b: int| 0 <= a < b < idx.len() ==> keys[idx[a] as int] >= keys[idx[b] as int],
        idx.len() == k,
{
    assert forall|a: int, b: int| 0 <= a < b < idx.len() implies keys[idx[a] as int] >= keys[idx[b] as int] by {
        assert(ranks_before(keys, idx[a] as int, idx[b] as int));
    }
}

/// The smaller of `limit` and `n`.
pub open spec fn at_most(limit: nat, n: nat) -> nat {
    if limit < n { limit } else { n }
}

/// A list of fewer than `n` distinct indices leaves an index below `n` out.
proof fn lemma_some_left_out(idx: Seq<usize>, n: nat)
    requires
        idx.len() < n,
        n <= usize::MAX,
    ensures
        exists|j: usize| j < n && !#[trigger] idx.contains(j),
{
    broadcast use vstd::seq_lib::seq_to_set_is_finite;
    if forall|j: usize| j < n ==> #[trigger] idx.contains(j) {
        let s = idx.map_values(|x: usize| x as int);
        lemma_int_range(0, n as int);
        assert forall|j: int| #[trigger] set_int_range(0, n as int).contains(j) implies s.to_set().contains(j) by {
            assert(idx.contains(j as usize));
            let a = choose|a: int| 0 <= a < idx.len() && idx[a] == j as usize;
            assert(s[a] == j);
        }
        s.lemma_cardinality_of_set();
        lemma_len_subset(set_int_range(0, n as int), s.to_set());
        assert(false);
    }
}

/// The first `limit` indices of `keys` in the ranking (see `is_top`).
fn top_indices(keys: &Vec<u128>, limit: usize) -> (idx: Vec<usize>)
    ensures
        is_top(keys@, at_most(limit as nat, keys@.len()), idx@),
{
    let n = keys.len();
    let k = if limit < n { limit } else { n };
    let mut taken: Vec<bool> = Vec::new();
    let mut t: usize = 0;
    while t < n
        invariant
            t <= n,
            n == keys@.len(),
            taken@.len() == t,
            forall|j: int| 0 <= j < t ==> !#[trigger] taken@[j],
        decreases n - t,
    {
        taken.push(false);
        t = t + 1;
    }
    let mut idx: Vec<usize> = Vec::new();
    while idx.len() < k
        invariant
            n == keys@.len(),
            k <= n,
            k == at_most(limit as nat, n as nat),
            taken@.len() == n,
            idx@.len() <= k,
            forall|j: int| 0 <= j < n ==> (#[trigger] taken@[j] <==> idx@.contains(j as usize)),
            forall|a: int| 0 <= a < idx@.len() ==> #[trigger] idx@[a] < n,
            forall|a: int, b: int| 0 <= a < b < idx@.len()
                ==> ranks_before(keys@, #[trigger] idx@[a] as int, #[trigger] idx@[b] as int),
            forall|a: int, j: int| 0 <= a < idx@.len() && 0 <= j < n && !idx@.contains(j as usize)
                ==> #[trigger] ranks_before(keys@, idx@[a] as int, j),
        decreases k - idx.len(),
    {
        proof {
            lemma_some_left_out(idx@, n as nat);
        }
        let mut best: usize = n;
        let mut j: usize = 0;
        while j < n
            invariant
                n == keys@.len(),
                taken@.len() == n,
                j <= n,
                best == n || (best < j && !taken@[best as int]),
                best == n ==> forall|m: int| 0 <= m < j ==> #[trigger] taken@[m],
                best < n ==> forall|m: int| 0 <= m < j && !taken@[m] && m != best
                    ==> #[trigger] ranks_before(keys@, best as int, m),
            decreases n - j,
        {
            let ghost old_best = best;
            if !taken[j] && (best == n || keys[j] > keys[best]) {
                best = j;
            }
            proof {
                if best < n {
                    assert forall|m: int| 0 <= m < j + 1 && !taken@[m] && m != best
                        implies #[trigger] ranks_before(keys@, best as int, m) by {
                        if best == j {
                            if old_best < n && m != old_best {
                                assert(ranks_before(keys@, old_best as int, m));
                            }
                        } else if m == j {
                        } else {
                            assert(ranks_before(keys@, best as int, m));
                        }
                    }
                }
            }
            j = j + 1;
        }
        proof {
            let w = choose|w: usize| w < n && !#[trigger] idx@.contains(w);
            assert(!taken@[w as int]);
        }
        let ghost old_idx = idx@;
        let ghost old_taken = taken@;
        taken.set(best, true);
        idx.push(best);
        proof {
            assert forall|m: int| 0 <= m < n implies (#[trigger] taken@[m] <==> idx@.contains(m as usize)) by {
                if m == best as int {
                    assert(idx@[idx@.len() - 1] == best);
                } else {
                    if idx@.contains(m as usize) {
                        let a = choose|a: int| 0 <= a < idx@.len() && idx@[a] == m as usize;
                        assert(a < old_idx.len());
                        assert(old_idx[a] == m as usize);
                    }
                    if old_idx.contains(m as usize) {
                        let a = choose|a: int| 0 <= a < old_idx.len() && old_idx[a] == m as usize;
                        assert(idx@[a] == m as usize);
                    }
                }
            }
            assert forall|a: int, b: int| 0 <= a < b < idx@.len()
                implies ranks_before(keys@, #[trigger] idx@[a] as int, #[trigger] idx@[b] as int) by {
                if b == idx@.len() - 1 {
                    assert(!old_idx.contains(best));
                    assert(old_idx[a] == idx@[a]);
                } else {
                    assert(old_idx[a] == idx@[a] && old_idx[b] == idx@[b]);
                }
            }
            assert forall|a: int, m: int| 0 <= a < idx@.len() && 0 <= m < n && !idx@.contains(m as usize)
                implies #[trigger] ranks_before(keys@, idx@[a] as int, m) by {
                assert(idx@[idx@.len() - 1] == best);
                assert(idx@.contains(best));
                assert(m != best as int);
                if old_idx.contains(m as usize) {
                    let c = choose|c: int| 0 <= c < old_idx.len() && old_idx[c] == m as usize;
                    assert(idx@[c] == m as usize);
                }
                assert(!old_taken[m]);
                if a == idx@.len() - 1 {
                    assert(idx@[a] == best);
                } else {
                    assert(old_idx[a] == idx@[a]);
                }
            }
        }
    }
    idx
}

/// The figures of all operations, with the totals of counters and memory.
#[derive(Debug)]
pub struct ProfilerSummary {
    pub operations: Vec<OperationStats>,
    pub total_operations: u64,
    pub total_memory_usage: usize,
}

/// The total time of each operation.
pub open spec fn time_keys(ops: Seq<OperationStats>) -> Seq<u128> {
    ops.map_values(|o: OperationStats| o.total_time)
}

/// The count of each operation.
pub open spec fn count_keys(ops: Seq<OperationStats>) -> Seq<u128> {
    ops.map_values(|o: OperationStats| o.count as u128)
}

/// The memory figure of each operation.
pub open spec fn memory_keys(ops: Seq<OperationStats>) -> Seq<u128> {
    ops.map_values(|o: OperationStats| o.memory_usage as u128)
}

/// `r` refers to the operations ranked first by `keys`, at most `limit`
/// of them, in their ranking.
pub open spec fn top_of(ops: Seq<OperationStats>, keys: Seq<u128>, limit: nat, r: Seq<&OperationStats>) -> bool {
    exists|idx: Seq<usize>| #[trigger] is_top(keys, at_most(limit, ops.len()), idx)
        && r.len() == idx.len()
        && forall|a: int| 0 <= a < r.len() ==> *r[a] == ops[idx[a] as int]
}

impl ProfilerSummary {
    fn pick(&self, keys: &Vec<u128>, limit: usize) -> (r: Vec<&OperationStats>)
        requires
            keys@.len() == self.operations@.len(),
        ensures
            top_of(self.operations@, keys@, limit as nat, r@),
    {
        let idx = top_indices(keys, limit);
        let mut r: Vec<&OperationStats> = Vec::new();
        let mut a: usize = 0;
        while a < idx.len()
            invariant
                keys@.len() == self.operations@.len(),
                is_top(keys@, at_most(limit as nat, keys@.len()), idx@),
                a <= idx@.len(),
                r@.len() == a,
                forall|c: int| 0 <= c < a ==> *r@[c] == self.operations@[idx@[c] as int],
            decreases idx.len() - a,
        {
            let i = idx[a];
            r.push(&self.operations[i]);
            a = a + 1;
        }
        assert(is_top(keys@, at_most(limit as nat, self.operations@.len()), idx@));
        r
    }

    /// The operations with the largest total time, at most `limit` of them,
    /// largest first (of equal times, the earlier operation first).
    pub fn top_by_time(&self, limit: usize) -> (r: Vec<&OperationStats>)
        ensures
            top_of(self.operations@, time_keys(self.operations@), limit as nat, r@),
    {
        let mut keys: Vec<u128> = Vec::new();
        let mut i: usize = 0;
        while i < self.operations.len()
            invariant
                i <= self.operations@.len(),
                keys@ == time_keys(self.operations@).take(i as int),
            decreases self.operations.len() - i,
        {
            keys.push(self.operations[i].total_time);
            i = i + 1;
            assert(keys@ =~= time_keys(self.operations@).take(i as int));
        }
        assert(keys@ =~= time_keys(self.operations@));
        self.pick(&keys, limit)
    }

    /// The operations with the largest counts, at most `limit` of them,
    /// largest first (of equal counts, the earlier operation first).
    pub fn top_by_count(&self, limit: usize) -> (r: Vec<&OperationStats>)
        ensures
            top_of(self.operations@, count_keys(self.operations@), limit as nat, r@),
    {
        let mut keys: Vec<u128> = Vec::new();
        let mut i: usize = 0;
        while i < self.operations.len()
            invariant
                i <= self.operations@.len(),
                keys@ == count_keys(self.operations@).take(i as int),
            decreases self.operations.len() - i,
        {
            keys.push(self.operations[i].count as u128);
            i = i + 1;
            assert(keys@ =~= count_keys(self.operations@).take(i as int));
        }
        assert(keys@ =~= count_keys(self.operations@));
        self.pick(&keys, limit)
    }

    /// The operations with the largest memory figures, at most `limit` of
    /// them, largest first (of equal figures, the earlier operation first).
    pub fn top_by_memory(&self, limit: usize) -> (r: Vec<&OperationStats>)
        ensures
            top_of(self.operations@, memory_keys(self.operations@), limit as nat, r@),
    {
        let mut keys: Vec<u128> = Vec::new();
        let mut i: usize = 0;
        while i < self.operations.len()
            invariant
                i <= self.operations@.len(),
                keys@ == memory_keys(self.operations@).take(i as int),
            decreases self.operations.len() - i,
        {
            keys.push(self.operations[i].memory_usage as u128);
            i = i + 1;
            assert(keys@ =~= memory_keys(self.operations@).take(i as int));
        }
        assert(keys@ =~= memory_keys(self.operations@));
        self.pick(&keys, limit)
    }
}

} // verus!
