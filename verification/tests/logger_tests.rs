use data_code::profiler::logger::{format_size, LogLevel, PerformanceLogEntry, PerformanceLogger};

fn reference_size(bytes: usize) -> String {
    const UNITS: &[&str] = &["B", "KB", "MB", "GB"];
    let mut size = bytes as f64;
    let mut unit_index = 0;
    while size >= 1024.0 && unit_index < UNITS.len() - 1 {
        size /= 1024.0;
        unit_index += 1;
    }
    if unit_index == 0 {
        format!("{}{}", bytes, UNITS[unit_index])
    } else {
        format!("{:.1}{}", size, UNITS[unit_index])
    }
}

#[test]
fn sizes_are_written_in_units() {
    assert_eq!(format_size(0), "0B");
    assert_eq!(format_size(1023), "1023B");
    assert_eq!(format_size(1024), "1.0KB");
    assert_eq!(format_size(1536), "1.5KB");
    assert_eq!(format_size(1048576), "1.0MB");
    assert_eq!(format_size(1073741824), "1.0GB");
    assert_eq!(format_size(5 * 1024 * 1024 * 1024 * 1024), "5120.0GB");
}

#[test]
fn sizes_match_floating_point_formatting() {
    let mut samples: Vec<usize> = vec![1280, 1126, 1177, 1945, 2047, 2048, 10239, 1048575, 1572864, 1073741823];
    samples.push(usize::MAX);
    samples.push(usize::MAX - 1024);
    samples.push((1usize << 53) + 1);
    samples.push((1usize << 60) + 12345);
    for k in 0..200usize {
        samples.push(1024 + k * 51);
        samples.push(1048576 + k * 52429);
        samples.push(1073741824usize.wrapping_mul(k + 1).wrapping_add(k * 53687091));
    }
    for b in samples {
        assert_eq!(format_size(b), reference_size(b), "size {}", b);
    }
}

#[test]
fn entries_format_their_parts() {
    let e = PerformanceLogEntry::new(LogLevel::Info, "op".to_string(), "msg".to_string()).with_duration(1_500_000);
    assert_eq!(e.duration, Some(1500));
    assert_eq!(e.format(), "[INFO] op 1500μs msg");
    let e = PerformanceLogEntry::new(LogLevel::Warning, "load".to_string(), "done".to_string())
        .with_duration(10_999)
        .with_input_size(2048)
        .with_output_size(512)
        .with_memory_usage(1048576)
        .with_metadata("k".to_string(), "v".to_string())
        .with_metadata("a".to_string(), "b".to_string())
        .with_metadata("k".to_string(), "w".to_string());
    assert_eq!(e.format(), "[WARN] load 10μs in:2.0KB out:512B mem:1.0MB done [k=w a=b]");
    let e = PerformanceLogEntry::new(LogLevel::Error, "x".to_string(), "".to_string());
    assert_eq!(e.format(), "[ERROR] x ");
    let e = PerformanceLogEntry::new(LogLevel::Debug, "x".to_string(), "m".to_string());
    assert_eq!(e.format(), "[DEBUG] x m");
}

#[test]
fn levels_below_the_minimum_are_not_kept() {
    let mut log = PerformanceLogger::new();
    assert!(log.is_console_enabled());
    assert!(!log.should_log(LogLevel::Debug));
    assert!(log.should_log(LogLevel::Info));
    assert!(log.should_log(LogLevel::Error));
    assert!(log.log(PerformanceLogEntry::new(LogLevel::Debug, "a".to_string(), "b".to_string())).is_none());
    assert!(log.get_buffer().is_empty());
    let line = log.log(PerformanceLogEntry::new(LogLevel::Info, "a".to_string(), "b".to_string()));
    assert_eq!(line, Some("[INFO] a b".to_string()));
    assert_eq!(log.get_buffer().len(), 1);
    let log = log.with_min_level(LogLevel::Error).with_console(false);
    assert!(!log.should_log(LogLevel::Warning));
    assert!(log.should_log(LogLevel::Error));
    assert!(!log.is_console_enabled());
    let log = log.with_min_level(LogLevel::Debug);
    assert!(log.should_log(LogLevel::Debug));
}

#[test]
fn buffer_drops_its_oldest_half_when_full() {
    let mut log = PerformanceLogger::new();
    for i in 0..10001usize {
        let _ = log.log(PerformanceLogEntry::new(LogLevel::Info, format!("op{}", i), String::new()));
    }
    let b = log.get_buffer();
    assert_eq!(b.len(), 5001);
    assert_eq!(b[0].operation, "op5000");
    assert_eq!(b[5000].operation, "op10000");
    log.clear_buffer();
    assert!(log.get_buffer().is_empty());
}

#[test]
fn operation_stats_gather_the_buffer() {
    let mut log = PerformanceLogger::new();
    let _ = log.log(PerformanceLogEntry::new(LogLevel::Info, "a".to_string(), String::new()).with_duration(4000).with_memory_usage(10));
    let _ = log.log(PerformanceLogEntry::new(LogLevel::Info, "b".to_string(), String::new()));
    let _ = log.log(PerformanceLogEntry::new(LogLevel::Info, "a".to_string(), String::new()).with_duration(1000));
    let _ = log.log(PerformanceLogEntry::new(LogLevel::Info, "a".to_string(), String::new()).with_memory_usage(30));
    let stats = log.get_operation_stats();
    assert_eq!(stats.len(), 2);
    let a = &stats[0];
    assert_eq!(a.operation, "a");
    assert_eq!(a.count, 3);
    assert_eq!(a.total_duration, 5);
    assert_eq!(a.avg_duration, 1);
    assert_eq!(a.min_duration, 1);
    assert_eq!(a.max_duration, 4);
    assert_eq!(a.total_memory, 40);
    assert_eq!(a.avg_memory, 13);
    assert_eq!(a.max_memory, 30);
    let b = &stats[1];
    assert_eq!(b.operation, "b");
    assert_eq!(b.count, 1);
    assert_eq!(b.min_duration, u64::MAX);
    assert_eq!(b.max_duration, 0);
    assert_eq!(b.avg_duration, 0);
}
