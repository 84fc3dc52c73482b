use data_code::profiler::monitor::{
    sort_by_priority, OptimizationMetrics, OptimizationMonitor, OptimizationRecommendation, OptimizationType,
    RecommendationAction, RecommendationPriority,
};

const MILLI: u128 = 1_000_000;

fn hit_rate(m: &OptimizationMetrics) -> f64 {
    let total = m.hit_count + m.miss_count;
    if total == 0 {
        0.0
    } else {
        m.hit_count as f64 / total as f64
    }
}

#[test]
fn test_optimization_metrics() {
    let mut metrics = OptimizationMetrics::new(OptimizationType::LazyEvaluation);
    metrics.record_hit(100 * MILLI, 1024);
    assert_eq!(metrics.hit_count, 1);
    assert_eq!(metrics.total_time_saved, 100 * MILLI);
    assert_eq!(metrics.memory_saved, 1024);
    assert_eq!(metrics.operations_optimized, 1);
    metrics.record_miss();
    assert_eq!(metrics.miss_count, 1);
    assert_eq!(hit_rate(&metrics), 0.5);
}

#[test]
fn test_optimization_monitor() {
    let mut monitor = OptimizationMonitor::new();
    monitor.record_baseline("test_operation", 200 * MILLI);
    let line = monitor.record_optimization_hit(OptimizationType::LazyEvaluation, "test_operation", 100 * MILLI, 512);
    let metrics = monitor.get_optimization_metrics(&OptimizationType::LazyEvaluation).unwrap();
    assert_eq!(metrics.hit_count, 1);
    assert_eq!(metrics.total_time_saved, 100 * MILLI);
    assert_eq!(metrics.memory_saved, 512);
    assert_eq!(
        line,
        Some(
            "[INFO] optimization_LazyEvaluation 100000μs mem:512B Optimization applied to test_operation [operation=test_operation baseline_ms=200 optimized_ms=100]"
                .to_string()
        )
    );
}

#[test]
fn hits_without_a_baseline_change_nothing() {
    let mut monitor = OptimizationMonitor::new();
    assert!(monitor.record_optimization_hit(OptimizationType::ParseCaching, "x", 5, 5).is_none());
    let m = monitor.get_optimization_metrics(&OptimizationType::ParseCaching).unwrap();
    assert_eq!(m.hit_count, 0);
    assert_eq!(monitor.saved_totals(), (0, 0, 0));
}

#[test]
fn slower_runs_save_no_time() {
    let mut monitor = OptimizationMonitor::new();
    monitor.record_baseline("op", 10);
    let _ = monitor.record_optimization_hit(OptimizationType::Vectorization, "op", 50, 0);
    let m = monitor.get_optimization_metrics(&OptimizationType::Vectorization).unwrap();
    assert_eq!(m.total_time_saved, 0);
    assert_eq!(m.hit_count, 1);
}

#[test]
fn misses_are_counted_and_not_logged() {
    let mut monitor = OptimizationMonitor::new();
    assert!(monitor.record_optimization_miss(OptimizationType::ASTOptimization, "op").is_none());
    let m = monitor.get_optimization_metrics(&OptimizationType::ASTOptimization).unwrap();
    assert_eq!(m.miss_count, 1);
}

#[test]
fn enabling_and_totals() {
    let mut monitor = OptimizationMonitor::new();
    assert!(monitor.is_optimization_enabled(&OptimizationType::Parallelization));
    monitor.set_optimization_enabled(OptimizationType::Parallelization, false);
    assert!(!monitor.is_optimization_enabled(&OptimizationType::Parallelization));
    assert!(monitor.is_optimization_enabled(&OptimizationType::MemoryOptimization));
    monitor.record_baseline("a", 30);
    monitor.record_baseline("b", 100);
    let _ = monitor.record_optimization_hit(OptimizationType::LazyEvaluation, "a", 10, 7);
    let _ = monitor.record_optimization_hit(OptimizationType::MemoryOptimization, "b", 40, 3);
    assert_eq!(monitor.saved_totals(), (80, 10, 2));
    assert_eq!(monitor.get_all_metrics().len(), 6);
}

fn rec(t: OptimizationType, p: RecommendationPriority) -> OptimizationRecommendation {
    OptimizationRecommendation { optimization_type: t, action: RecommendationAction::Tune, reason: String::new(), priority: p }
}

#[test]
fn recommendations_sort_by_priority_stably() {
    let recs = vec![
        rec(OptimizationType::LazyEvaluation, RecommendationPriority::Low),
        rec(OptimizationType::ParseCaching, RecommendationPriority::High),
        rec(OptimizationType::Vectorization, RecommendationPriority::Medium),
        rec(OptimizationType::Parallelization, RecommendationPriority::High),
    ];
    let sorted = sort_by_priority(&recs);
    let types: Vec<OptimizationType> = sorted.iter().map(|r| r.optimization_type).collect();
    assert_eq!(
        types,
        vec![
            OptimizationType::ParseCaching,
            OptimizationType::Parallelization,
            OptimizationType::Vectorization,
            OptimizationType::LazyEvaluation
        ]
    );
}
