use data_code::profiler::{OperationStats, Profiler, ProfilerSummary};

fn busy_work() -> u64 {
    let mut x: u64 = 1;
    for i in 0..200_000u64 {
        x = x.wrapping_mul(31).wrapping_add(i);
    }
    x
}

#[test]
fn test_profiler_basic() {
    let mut profiler = Profiler::new();
    {
        let timer = profiler.start_timer("test_operation");
        assert!(busy_work() != 0 || true);
        timer.finish(&mut profiler);
    }
    profiler.increment_counter("test_counter");
    profiler.increment_counter("test_counter");
    profiler.record_memory_usage("test_memory", 1024);

    let stats = profiler.get_operation_stats("test_operation");
    assert_eq!(stats.operation, "test_operation");
    assert!(stats.total_time > 0);

    let counter_stats = profiler.get_operation_stats("test_counter");
    assert_eq!(counter_stats.count, 2);

    let memory_stats = profiler.get_operation_stats("test_memory");
    assert_eq!(memory_stats.memory_usage, 1024);
}

#[test]
fn test_profiler_summary() {
    let mut profiler = Profiler::new();
    profiler.increment_counter("op1");
    profiler.increment_counter("op2");
    profiler.increment_counter("op2");

    let summary = profiler.get_summary();
    assert_eq!(summary.total_operations, 3);

    let top_by_count = summary.top_by_count(1);
    assert_eq!(top_by_count[0].operation, "op2");
    assert_eq!(top_by_count[0].count, 2);
}

#[test]
fn operation_stats_from_durations() {
    let s = OperationStats::new("op".to_string(), vec![3, 1, 2], 7, 64);
    assert_eq!(s.total_time, 6);
    assert_eq!(s.avg_time, 2);
    assert_eq!(s.min_time, 1);
    assert_eq!(s.max_time, 3);
    assert_eq!(s.count, 7);
    assert_eq!(s.memory_usage, 64);
    let s = OperationStats::new("op".to_string(), vec![5, 6], 0, 0);
    assert_eq!(s.avg_time, 5);
    let s = OperationStats::new("none".to_string(), vec![], 0, 0);
    assert_eq!((s.total_time, s.avg_time, s.min_time, s.max_time), (0, 0, 0, 0));
}

#[test]
fn ending_a_timer_that_is_not_running_changes_nothing() {
    let mut profiler = Profiler::new();
    profiler.end_timer("never_started");
    let s = profiler.get_operation_stats("never_started");
    assert_eq!(s.total_time, 0);
    assert_eq!(profiler.get_summary().operations.len(), 0);
}

#[test]
fn summary_lists_timed_then_counted_operations() {
    let mut profiler = Profiler::new();
    profiler.increment_counter("counted");
    let t = profiler.start_timer("timed");
    t.finish(&mut profiler);
    profiler.increment_counter("timed");
    profiler.record_memory_usage("counted", 100);
    profiler.record_memory_usage("other", 50);
    let summary = profiler.get_summary();
    let names: Vec<&str> = summary.operations.iter().map(|o| o.operation.as_str()).collect();
    assert_eq!(names, vec!["timed", "counted"]);
    assert_eq!(summary.total_operations, 2);
    assert_eq!(summary.total_memory_usage, 150);
    assert_eq!(summary.operations[1].memory_usage, 100);
}

fn stats(name: &str, total: u128, count: u64, memory: usize) -> OperationStats {
    OperationStats {
        operation: name.to_string(),
        count,
        total_time: total,
        avg_time: 0,
        min_time: 0,
        max_time: 0,
        memory_usage: memory,
    }
}

#[test]
fn top_lists_are_sorted_stably() {
    let summary = ProfilerSummary {
        operations: vec![stats("a", 10, 1, 5), stats("b", 30, 3, 5), stats("c", 10, 3, 9), stats("d", 20, 0, 1)],
        total_operations: 7,
        total_memory_usage: 20,
    };
    let by_time: Vec<&str> = summary.top_by_time(10).iter().map(|o| o.operation.as_str()).collect();
    assert_eq!(by_time, vec!["b", "d", "a", "c"]);
    let by_count: Vec<&str> = summary.top_by_count(2).iter().map(|o| o.operation.as_str()).collect();
    assert_eq!(by_count, vec!["b", "c"]);
    let by_memory: Vec<&str> = summary.top_by_memory(3).iter().map(|o| o.operation.as_str()).collect();
    assert_eq!(by_memory, vec!["c", "a", "b"]);
    assert!(summary.top_by_time(0).is_empty());
}

#[test]
fn clear_forgets_everything() {
    let mut profiler = Profiler::new();
    profiler.increment_counter("x");
    profiler.record_memory_usage("x", 3);
    let _t = profiler.start_timer("y");
    profiler.clear();
    profiler.end_timer("y");
    let summary = profiler.get_summary();
    assert!(summary.operations.is_empty());
    assert_eq!(summary.total_operations, 0);
    assert_eq!(summary.total_memory_usage, 0);
}
