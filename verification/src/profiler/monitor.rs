//! Monitoring of optimizations: for each kind, how often it applied and what
//! it saved, against baseline timings of the operations.
use vstd::prelude::*;
use crate::named::NamedValues;
use crate::text::{owned, push_string, decimal, decimal_string_wide};
use super::MAX_DURATION_NANOS;
use super::logger::{PerformanceLogger, PerformanceLogEntry, LogLevel, joined, entry_parts};

verus! {

/// The kinds of optimizations that are monitored.
#[derive(Debug, Clone, Copy, PartialEq, Eq, Hash, Structural)]
pub enum OptimizationType {
    LazyEvaluation,
    ASTOptimization,
    ParseCaching,
    Vectorization,
    Parallelization,
    MemoryOptimization,
}

/// The place of a kind among the monitored ones.
pub open spec fn type_index(t: OptimizationType) -> int {
    match t {
        OptimizationType::LazyEvaluation => 0,
        OptimizationType::ASTOptimization => 1,
        OptimizationType::ParseCaching => 2,
        OptimizationType::Vectorization => 3,
        OptimizationType::Parallelization => 4,
        OptimizationType::MemoryOptimization => 5,
    }
}

/// The kind at a place.
pub open spec fn type_at(i: int) -> OptimizationType {
    if i == 0 { OptimizationType::LazyEvaluation }
    else if i == 1 { OptimizationType::ASTOptimization }
    else if i == 2 { OptimizationType::ParseCaching }
    else if i == 3 { OptimizationType::Vectorization }
    else if i == 4 { OptimizationType::Parallelization }
    else { OptimizationType::MemoryOptimization }
}

/// The name of a kind, as `Debug` writes it.
pub open spec fn type_label(t: OptimizationType) -> Seq<char> {
    match t {
        OptimizationType::LazyEvaluation => "LazyEvaluation"@,
        OptimizationType::ASTOptimization => "ASTOptimization"@,
        OptimizationType::ParseCaching => "ParseCaching"@,
        OptimizationType::Vectorization => "Vectorization"@,
        OptimizationType::Parallelization => "Parallelization"@,
        OptimizationType::MemoryOptimization => "MemoryOptimization"@,
    }
}

/// What an optimization achieved: applications and misses, the time (in
/// nanoseconds) and memory saved, and whether it is enabled.
#[derive(Debug, Clone, Copy)]
pub struct OptimizationMetrics {
    pub optimization_type: OptimizationType,
    pub enabled: bool,
    pub hit_count: u64,
    pub miss_count: u64,
    pub total_time_saved: u128,
    pub memory_saved: usize,
    pub operations_optimized: u64,
}

/// The figures can take one more application saving `time` and `memory`.
pub open spec fn hit_fits(m: OptimizationMetrics, time: u128, memory: usize) -> bool {
    &&& m.hit_count < u64::MAX
    &&& m.operations_optimized < u64::MAX
    &&& m.total_time_saved + time <= MAX_DURATION_NANOS
    &&& m.memory_saved + memory <= usize::MAX
}

impl OptimizationMetrics {
    /// Enabled, nothing recorded yet.
    pub fn new(optimization_type: OptimizationType) -> (r: Self)
        ensures
            r == (OptimizationMetrics {
                optimization_type,
                enabled: true,
                hit_count: 0,
                miss_count: 0,
                total_time_saved: 0,
                memory_saved: 0,
                operations_optimized: 0,
            }),
    {
        OptimizationMetrics {
            optimization_type,
            enabled: true,
            hit_count: 0,
            miss_count: 0,
            total_time_saved: 0,
            memory_saved: 0,
            operations_optimized: 0,
        }
    }

    /// Records an application that saved `time_saved` nanoseconds and
    /// `memory_saved` bytes.
    pub fn record_hit(&mut self, time_saved: u128, memory_saved: usize)
        requires
            hit_fits(*old(self), time_saved, memory_saved),
        ensures
            *final(self) == (OptimizationMetrics {
                hit_count: (old(self).hit_count + 1) as u64,
                total_time_saved: (old(self).total_time_saved + time_saved) as u128,
                memory_saved: (old(self).memory_saved + memory_saved) as usize,
                operations_optimized: (old(self).operations_optimized + 1) as u64,
                ..*old(self)
            }),
    {
        self.hit_count = self.hit_count + 1;
        self.total_time_saved = self.total_time_saved + time_saved;
        self.memory_saved = self.memory_saved + memory_saved;
        self.operations_optimized = self.operations_optimized + 1;
    }

    /// Records an attempt where the optimization did not apply.
    pub fn record_miss(&mut self)
        requires
            old(self).miss_count < u64::MAX,
        ensures
            *final(self) == (OptimizationMetrics { miss_count: (old(self).miss_count + 1) as u64, ..*old(self) }),
    {
        self.miss_count = self.miss_count + 1;
    }
}

/// The sum of the time saved by the listed metrics.
pub open spec fn time_saved_total(ms: Seq<OptimizationMetrics>) -> nat
    decreases ms.len(),
{
    if ms.len() == 0 { 0 } else { time_saved_total(ms.drop_last()) + (ms.last().total_time_saved as nat) }
}

/// The sum of the memory saved by the listed metrics.
pub open spec fn memory_saved_total(ms: Seq<OptimizationMetrics>) -> nat
    decreases ms.len(),
{
    if ms.len() == 0 { 0 } else { memory_saved_total(ms.drop_last()) + (ms.last().memory_saved as nat) }
}

/// The sum of the operations optimized by the listed metrics.
pub open spec fn operations_total(ms: Seq<OptimizationMetrics>) -> nat
    decreases ms.len(),
{
    if ms.len() == 0 { 0 } else { operations_total(ms.drop_last()) + (ms.last().operations_optimized as nat) }
}

/// The name of the log operation for a kind: `optimization_` and its name.
pub open spec fn log_operation(t: OptimizationType) -> Seq<char> {
    "optimization_"@ + type_label(t)
}


/// `e` is the entry logged for an application of optimization `t` to
/// `operation`, saving `saved` nanoseconds and `memory` bytes against a
/// baseline of `baseline` nanoseconds, the optimized run taking `optimized`.
pub open spec fn hit_entry(
    e: PerformanceLogEntry,
    t: OptimizationType,
    operation: Seq<char>,
    saved: u128,
    memory: usize,
    baseline: u128,
    optimized: u128,
) -> bool {
    &&& e.level == LogLevel::Info
    &&& e.operation@ == log_operation(t)
    &&& e.message@ == "Optimization applied to "@ + operation
    &&& e.duration == Some((saved / 1000) as u64)
    &&& e.input_size is None
    &&& e.output_size is None
    &&& e.memory_usage == Some(memory)
    &&& e.metadata.wf()
    &&& e.metadata.keys() == seq!["operation"@, "baseline_ms"@, "optimized_ms"@]
    &&& e.metadata.map().len() == 3
    &&& e.metadata.map()["operation"@]@ == operation
    &&& e.metadata.map()["baseline_ms"@]@ == decimal((baseline / 1000000) as nat)
    &&& e.metadata.map()["optimized_ms"@]@ == decimal((optimized / 1000000) as nat)
}

/// `x` saturating-minus `y`.
pub open spec fn saturating_sub(x: u128, y: u128) -> u128 {
    if x >= y { (x - y) as u128 } else { 0 }
}

/// The monitor: the metrics of each kind, the baseline time of each
/// operation (in nanoseconds), and a performance log.
pub struct OptimizationMonitor {
    metrics: Vec<OptimizationMetrics>,
    logger: PerformanceLogger,
    baseline_measurements: NamedValues<u128>,
}

impl OptimizationMonitor {
    /// The metrics, one per kind in the order of `type_index`.
    pub closed spec fn all_metrics(&self) -> Seq<OptimizationMetrics> {
        self.metrics@
    }

    /// The baseline times by operation.
    pub closed spec fn baselines(&self) -> Map<Seq<char>, u128> {
        self.baseline_measurements.map()
    }

    /// The log.
    pub closed spec fn log(&self) -> PerformanceLogger {
        self.logger
    }

    /// One metrics entry per kind, in order; each name once.
    pub closed spec fn wf(&self) -> bool {
        &&& self.metrics@.len() == 6
        &&& forall|i: int| 0 <= i < 6 ==> (#[trigger] self.metrics@[i]).optimization_type == type_at(i)
        &&& self.baseline_measurements.wf()
        &&& self.logger.level() == LogLevel::Info
    }

    /// A well-formed monitor holds six metrics, one per kind of
    /// optimization, in the order of `type_at`.
    pub proof fn lemma_six_metrics(&self)
        requires
            self.wf(),
        ensures
            self.all_metrics().len() == 6,
            forall|i: int| 0 <= i < 6 ==> (#[trigger] self.all_metrics()[i]).optimization_type == type_at(i),
    {
    }

    /// A monitor with each kind enabled and nothing recorded, no baseline, and
    /// a log keeping entries from `Info` up.
    pub fn new() -> (r: Self)
        ensures
            r.wf(),
            r.all_metrics().len() == 6,
            forall|i: int| 0 <= i < 6 ==> #[trigger] r.all_metrics()[i] == OptimizationMetrics::new_spec(type_at(i)),
            r.baselines() == Map::<Seq<char>, u128>::empty(),
            r.log().level() == LogLevel::Info,
            r.log().entries() == Seq::<PerformanceLogEntry>::empty(),
    {
        let mut metrics: Vec<OptimizationMetrics> = Vec::new();
        metrics.push(OptimizationMetrics::new(OptimizationType::LazyEvaluation));
        metrics.push(OptimizationMetrics::new(OptimizationType::ASTOptimization));
        metrics.push(OptimizationMetrics::new(OptimizationType::ParseCaching));
        metrics.push(OptimizationMetrics::new(OptimizationType::Vectorization));
        metrics.push(OptimizationMetrics::new(OptimizationType::Parallelization));
        metrics.push(OptimizationMetrics::new(OptimizationType::MemoryOptimization));
        OptimizationMonitor { metrics, logger: PerformanceLogger::new(), baseline_measurements: NamedValues::new() }
    }

    /// Records the time of an operation without optimizations.
    pub fn record_baseline(&mut self, operation: &str, duration: u128)
        requires
            old(self).wf(),
        ensures
            final(self).wf(),
            final(self).baselines() == old(self).baselines().insert(operation@, duration),
            final(self).all_metrics() == old(self).all_metrics(),
            final(self).log() == old(self).log(),
    {
        self.baseline_measurements.insert(owned(operation), duration);
    }

    fn index_of(t: OptimizationType) -> (r: usize)
        ensures
            r == type_index(t),
    {
        match t {
            OptimizationType::LazyEvaluation => 0,
            OptimizationType::ASTOptimization => 1,
            OptimizationType::ParseCaching => 2,
            OptimizationType::Vectorization => 3,
            OptimizationType::Parallelization => 4,
            OptimizationType::MemoryOptimization => 5,
        }
    }

    fn label(t: OptimizationType) -> (r: &'static str)
        ensures
            r@ == type_label(t),
    {
        match t {
            OptimizationType::LazyEvaluation => "LazyEvaluation",
            OptimizationType::ASTOptimization => "ASTOptimization",
            OptimizationType::ParseCaching => "ParseCaching",
            OptimizationType::Vectorization => "Vectorization",
            OptimizationType::Parallelization => "Parallelization",
            OptimizationType::MemoryOptimization => "MemoryOptimization",
        }
    }

    /// Whether an optimization kind is enabled.
    pub fn is_optimization_enabled(&self, optimization_type: &OptimizationType) -> (r: bool)
        requires
            self.wf(),
        ensures
            r == self.all_metrics()[type_index(*optimization_type)].enabled,
    {
        self.metrics[Self::index_of(*optimization_type)].enabled
    }

    /// Enables or disables an optimization kind.
    pub fn set_optimization_enabled(&mut self, optimization_type: OptimizationType, enabled: bool)
        requires
            old(self).wf(),
        ensures
            final(self).wf(),
            final(self).all_metrics() == old(self).all_metrics().update(type_index(optimization_type),
                OptimizationMetrics { enabled, ..old(self).all_metrics()[type_index(optimization_type)] }),
            final(self).baselines() == old(self).baselines(),
            final(self).log() == old(self).log(),
    {
        let i = Self::index_of(optimization_type);
        let mut m = self.metrics[i];
        m.enabled = enabled;
        self.metrics.set(i, m);
    }

    /// The metrics of an optimization kind (every kind has them).
    pub fn get_optimization_metrics(&self, optimization_type: &OptimizationType) -> (r: Option<&OptimizationMetrics>)
        requires
            self.wf(),
        ensures
            r matches Some(m) && *m == self.all_metrics()[type_index(*optimization_type)],
    {
        Some(&self.metrics[Self::index_of(*optimization_type)])
    }

    /// The metrics of every kind, in the order of `type_index`.
    pub fn get_all_metrics(&self) -> (r: &Vec<OptimizationMetrics>)
        ensures
            r@ == self.all_metrics(),
    {
        &self.metrics
    }

    /// Records an application of an optimization to an operation that
    /// takes `optimized_duration`: when the operation has a baseline, the
    /// time saved (the baseline less that, at least zero) and the memory
    /// saved are recorded and an entry is logged (see `hit_entry`), whose
    /// text comes back; without a baseline nothing changes.
    pub fn record_optimization_hit(
        &mut self,
        optimization_type: OptimizationType,
        operation: &str,
        optimized_duration: u128,
        memory_saved: usize,
    ) -> (r: Option<String>)
        requires
            old(self).wf(),
            old(self).baselines().contains_key(operation@) ==> hit_fits(
                old(self).all_metrics()[type_index(optimization_type)],
                saturating_sub(old(self).baselines()[operation@], optimized_duration),
                memory_saved,
            ),
        ensures
            final(self).wf(),
            final(self).all_metrics().len() == 6,
            final(self).baselines() == old(self).baselines(),
            if old(self).baselines().contains_key(operation@) {
                let b = old(self).baselines()[operation@];
                let saved = saturating_sub(b, optimized_duration);
                let i = type_index(optimization_type);
                let m = old(self).all_metrics()[i];
                &&& final(self).all_metrics() == old(self).all_metrics().update(i, OptimizationMetrics {
                    hit_count: (m.hit_count + 1) as u64,
                    total_time_saved: (m.total_time_saved + saved) as u128,
                    memory_saved: (m.memory_saved + memory_saved) as usize,
                    operations_optimized: (m.operations_optimized + 1) as u64,
                    ..m
                })
                &&& exists|e: PerformanceLogEntry| #[trigger] hit_entry(e, optimization_type, operation@, saved,
                        memory_saved, b, optimized_duration)
                    && final(self).log().entries() == super::logger::buffer_after(old(self).log().entries(), e)
                    && (r matches Some(t) && t@ == joined(entry_parts(e)))
                &&& final(self).log().level() == old(self).log().level()
            } else {
                &&& r is None
                &&& final(self).all_metrics() == old(self).all_metrics()
                &&& final(self).log() == old(self).log()
            },
    {
        let baseline = match self.baseline_measurements.get(operation) {
            Some(b) => *b,
            None => return None,
        };
        let time_saved = if baseline >= optimized_duration { baseline - optimized_duration } else { 0 };
        let i = Self::index_of(optimization_type);
        let mut m = self.metrics[i];
        m.record_hit(time_saved, memory_saved);
        self.metrics.set(i, m);
        let mut name = owned("optimization_");
        push_string(&mut name, Self::label(optimization_type));
        let mut message = owned("Optimization applied to ");
        push_string(&mut message, operation);
        proof {
            reveal_strlit("operation");
            reveal_strlit("baseline_ms");
            reveal_strlit("optimized_ms");
        }
        let e1 = PerformanceLogEntry::new(LogLevel::Info, name, message)
            .with_duration(time_saved)
            .with_memory_usage(memory_saved);
        let e2 = e1.with_metadata(owned("operation"), owned(operation));
        proof {
            assert(e2.metadata.keys() =~= seq!["operation"@]);
            assert(!seq!["operation"@].contains("baseline_ms"@)) by {
                assert("operation"@.len() != "baseline_ms"@.len());
                assert(seq!["operation"@][0] != "baseline_ms"@);
            }
        }
        let e3 = e2.with_metadata(owned("baseline_ms"), decimal_string_wide(baseline / 1000000));
        proof {
            assert(e3.metadata.keys() =~= seq!["operation"@, "baseline_ms"@]);
            assert(!seq!["operation"@, "baseline_ms"@].contains("optimized_ms"@)) by {
                assert("operation"@.len() != "optimized_ms"@.len());
                assert(seq!["operation"@, "baseline_ms"@][0] != "optimized_ms"@);
                assert(seq!["operation"@, "baseline_ms"@][1] != "optimized_ms"@);
            }
        }
        let entry = e3.with_metadata(owned("optimized_ms"), decimal_string_wide(optimized_duration / 1000000));
        proof {
            let ks = entry.metadata.keys();
            assert(ks =~= seq!["operation"@, "baseline_ms"@, "optimized_ms"@]);
            entry.metadata.lemma_keys();
            assert(entry.metadata.map().dom() =~= ks.to_set());
            assert(ks.to_set() =~= set!["operation"@, "baseline_ms"@, "optimized_ms"@]);
            assert(entry.metadata.map().len() == 3);
        }
        let ghost e = entry;
        let r = self.logger.log(entry);
        assert(hit_entry(e, optimization_type, operation@, time_saved, memory_saved, baseline, optimized_duration));
        r
    }

    /// Records an attempt where an optimization did not apply to an
    /// operation. The entry for it is at the `Debug` level, below what the
    /// log keeps, so the log does not change and nothing comes back.
    pub fn record_optimization_miss(&mut self, optimization_type: OptimizationType, operation: &str) -> (r: Option<String>)
        requires
            old(self).wf(),
            old(self).all_metrics()[type_index(optimization_type)].miss_count < u64::MAX,
        ensures
            final(self).wf(),
            r is None,
            final(self).all_metrics() == old(self).all_metrics().update(type_index(optimization_type),
                OptimizationMetrics {
                    miss_count: (old(self).all_metrics()[type_index(optimization_type)].miss_count + 1) as u64,
                    ..old(self).all_metrics()[type_index(optimization_type)]
                }),
            final(self).baselines() == old(self).baselines(),
            final(self).log().entries() == old(self).log().entries(),
            final(self).log().level() == old(self).log().level(),
            final(self).log().console() == old(self).log().console(),
    {
        let i = Self::index_of(optimization_type);
        let mut m = self.metrics[i];
        m.record_miss();
        self.metrics.set(i, m);
        let mut name = owned("optimization_");
        push_string(&mut name, Self::label(optimization_type));
        let mut message = owned("Optimization not applied to ");
        push_string(&mut message, operation);
        let entry = PerformanceLogEntry::new(LogLevel::Debug, name, message)
            .with_metadata(owned("operation"), owned(operation));
        self.logger.log(entry)
    }

    /// The time, memory and operations saved by all kinds together.
    pub fn saved_totals(&self) -> (r: (u128, usize, u64))
        requires
            time_saved_total(self.all_metrics()) <= MAX_DURATION_NANOS,
            memory_saved_total(self.all_metrics()) <= usize::MAX,
            operations_total(self.all_metrics()) <= u64::MAX,
        ensures
            r.0 == time_saved_total(self.all_metrics()),
            r.1 == memory_saved_total(self.all_metrics()),
            r.2 == operations_total(self.all_metrics()),
    {
        let ghost ms = self.metrics@;
        let mut time: u128 = 0;
        let mut memory: usize = 0;
        let mut operations: u64 = 0;
        let mut i: usize = 0;
        while i < self.metrics.len()
            invariant
                ms == self.metrics@,
                i <= ms.len(),
                time == time_saved_total(ms.take(i as int)),
                memory == memory_saved_total(ms.take(i as int)),
                operations == operations_total(ms.take(i as int)),
                time_saved_total(ms) <= MAX_DURATION_NANOS,
                memory_saved_total(ms) <= usize::MAX,
                operations_total(ms) <= u64::MAX,
            decreases ms.len() - i,
        {
            proof {
                assert(ms.take(i + 1).drop_last() =~= ms.take(i as int));
                lemma_totals_prefix(ms, i + 1);
            }
            let m = &self.metrics[i];
            time = time + m.total_time_saved;
            memory = memory + m.memory_saved;
            operations = operations + m.operations_optimized;
            i = i + 1;
        }
        proof {
            assert(ms.take(i as int) =~= ms);
        }
        (time, memory, operations)
    }
}

impl OptimizationMetrics {
    /// The metrics of a kind before anything is recorded.
    pub open spec fn new_spec(optimization_type: OptimizationType) -> Self {
        OptimizationMetrics {
            optimization_type,
            enabled: true,
            hit_count: 0,
            miss_count: 0,
            total_time_saved: 0,
            memory_saved: 0,
            operations_optimized: 0,
        }
    }
}

/// The totals of a prefix of the metrics are at most those of all.
pub proof fn lemma_totals_prefix(ms: Seq<OptimizationMetrics>, k: int)
    requires
        0 <= k <= ms.len(),
    ensures
        time_saved_total(ms.take(k)) <= time_saved_total(ms),
        memory_saved_total(ms.take(k)) <= memory_saved_total(ms),
        operations_total(ms.take(k)) <= operations_total(ms),
    decreases ms.len(),
{
    if k < ms.len() {
        lemma_totals_prefix(ms.drop_last(), k);
        assert(ms.drop_last().take(k) =~= ms.take(k));
    } else {
        assert(ms.take(k) =~= ms);
    }
}

/// What a recommendation proposes.
#[derive(Debug, Clone, Copy, PartialEq, Eq, Structural)]
pub enum RecommendationAction {
    Enable,
    Disable,
    Tune,
}

/// How urgent a recommendation is, from least to most.
#[derive(Debug, Clone, Copy, PartialEq, Eq, Structural)]
pub enum RecommendationPriority {
    Low,
    Medium,
    High,
}

/// The rank of a priority: the more urgent, the higher.
pub open spec fn priority_rank(p: RecommendationPriority) -> nat {
    match p {
        RecommendationPriority::Low => 0,
        RecommendationPriority::Medium => 1,
        RecommendationPriority::High => 2,
    }
}

/// A recommendation for an optimization kind.
#[derive(Debug, Clone)]
pub struct OptimizationRecommendation {
    pub optimization_type: OptimizationType,
    pub action: RecommendationAction,
    pub reason: String,
    pub priority: RecommendationPriority,
}

/// The recommendations of a priority, in order.
pub open spec fn of_priority(rs: Seq<OptimizationRecommendation>, p: RecommendationPriority) -> Seq<OptimizationRecommendation>
    decreases rs.len(),
{
    if rs.len() == 0 {
        Seq::empty()
    } else if rs.last().priority == p {
        of_priority(rs.drop_last(), p).push(rs.last())
    } else {
        of_priority(rs.drop_last(), p)
    }
}

/// The recommendations sorted from most to least urgent, keeping the order
/// of those of equal priority (a stable sort).
pub open spec fn by_priority(rs: Seq<OptimizationRecommendation>) -> Seq<OptimizationRecommendation> {
    of_priority(rs, RecommendationPriority::High) + of_priority(rs, RecommendationPriority::Medium)
        + of_priority(rs, RecommendationPriority::Low)
}

/// The recommendations of a priority all have it, and those of the three
/// priorities together are as many as all.
pub proof fn lemma_of_priority(rs: Seq<OptimizationRecommendation>)
    ensures
        forall|p: RecommendationPriority, i: int| 0 <= i < of_priority(rs, p).len()
            ==> (#[trigger] of_priority(rs, p)[i]).priority == p,
        of_priority(rs, RecommendationPriority::High).len() + of_priority(rs, RecommendationPriority::Medium).len()
            + of_priority(rs, RecommendationPriority::Low).len() == rs.len(),
    decreases rs.len(),
{
    if rs.len() > 0 {
        lemma_of_priority(rs.drop_last());
        assert forall|p: RecommendationPriority, i: int| 0 <= i < of_priority(rs, p).len()
            implies (#[trigger] of_priority(rs, p)[i]).priority == p by {
            let prev = of_priority(rs.drop_last(), p);
            if rs.last().priority == p && i == prev.len() {
            } else {
                assert(of_priority(rs, p)[i] == prev[i]);
            }
        }
    }
}

/// Sorting by priority keeps every recommendation and puts the more urgent
/// ones first.
pub proof fn law_sorted_by_priority(rs: Seq<OptimizationRecommendation>)
    ensures
        by_priority(rs).len() == rs.len(),
        forall|i: int, j: int| 0 <= i < j < rs.len()
            ==> priority_rank((#[trigger] by_priority(rs)[i]).priority) >= priority_rank((#[trigger] by_priority(rs)[j]).priority),
{
    lemma_of_priority(rs);
    let h = of_priority(rs, RecommendationPriority::High);
    let m = of_priority(rs, RecommendationPriority::Medium);
    let l = of_priority(rs, RecommendationPriority::Low);
    let r = by_priority(rs);
    assert forall|i: int| 0 <= i < r.len() implies priority_rank((#[trigger] r[i]).priority)
        == if i < h.len() { 2nat } else if i < h.len() + m.len() { 1nat } else { 0nat } by {
        if i < h.len() {
            assert(r[i] == h[i]);
        } else if i < h.len() + m.len() {
            assert(r[i] == m[i - h.len()]);
        } else {
            assert(r[i] == l[i - h.len() - m.len()]);
        }
    }
}

impl OptimizationRecommendation {
    /// A copy of the recommendation.
    pub fn copy(&self) -> (r: Self)
        ensures
            r == *self,
    {
        OptimizationRecommendation {
            optimization_type: self.optimization_type,
            action: self.action,
            reason: self.reason.clone(),
            priority: self.priority,
        }
    }
}

/// Appends the recommendations of a priority, in order.
fn push_of_priority(out: &mut Vec<OptimizationRecommendation>, rs: &Vec<OptimizationRecommendation>, p: RecommendationPriority)
    ensures
        final(out)@ == old(out)@ + of_priority(rs@, p),
{
    let mut i: usize = 0;
    while i < rs.len()
        invariant
            i <= rs@.len(),
            out@ == old(out)@ + of_priority(rs@.take(i as int), p),
        decreases rs.len() - i,
    {
        proof {
            assert(rs@.take(i + 1).drop_last() =~= rs@.take(i as int));
        }
        if rs[i].priority == p {
            out.push(rs[i].copy());
            assert(out@ =~= old(out)@ + of_priority(rs@.take(i + 1), p));
        }
        i = i + 1;
    }
    assert(rs@.take(i as int) =~= rs@);
}

/// Sorts recommendations from most to least urgent, keeping the order of
/// those of equal priority (see `by_priority`).
pub fn sort_by_priority(recommendations: &Vec<OptimizationRecommendation>) -> (r: Vec<OptimizationRecommendation>)
    ensures
        r@ == by_priority(recommendations@),
{
    let mut r: Vec<OptimizationRecommendation> = Vec::new();
    push_of_priority(&mut r, recommendations, RecommendationPriority::High);
    push_of_priority(&mut r, recommendations, RecommendationPriority::Medium);
    push_of_priority(&mut r, recommendations, RecommendationPriority::Low);
    assert(r@ =~= by_priority(recommendations@));
    r
}

} // verus!
