use aikv::observability::logging::{
    Level, LogConfig, LogFormat, LoggingManager, SlowQueryLog, DEFAULT_SLOWLOG_MAX_LEN,
    DEFAULT_SLOWLOG_THRESHOLD_US,
};
use aikv::observability::metrics::{ConnectionMetrics, Counter, Gauge, MemoryMetrics};
use aikv::observability::tracing_setup::{CommandSpan, TraceContext};
use std::time::Duration;

#[test]
fn test_log_format_parsing() {
    assert_eq!(LogFormat::parse("text"), Some(LogFormat::Text));
    assert_eq!(LogFormat::parse("json"), Some(LogFormat::Json));
    assert_eq!(LogFormat::parse("plain"), Some(LogFormat::Text));
    assert_eq!(LogFormat::parse("invalid"), None);
}

#[test]
fn test_log_level_parsing() {
    assert_eq!(LogConfig::parse_level("trace"), Some(Level::TRACE));
    assert_eq!(LogConfig::parse_level("debug"), Some(Level::DEBUG));
    assert_eq!(LogConfig::parse_level("info"), Some(Level::INFO));
    assert_eq!(LogConfig::parse_level("warn"), Some(Level::WARN));
    assert_eq!(LogConfig::parse_level("error"), Some(Level::ERROR));
    assert_eq!(LogConfig::parse_level("invalid"), None);
}

#[test]
fn test_slow_query_log() {
    let mut log = SlowQueryLog::with_settings(10, 1000);

    log.record("GET", &["key".to_string()], Duration::from_micros(500), None);
    assert!(log.is_empty());

    log.record(
        "SET",
        &["key".to_string(), "value".to_string()],
        Duration::from_millis(2),
        None,
    );
    assert_eq!(log.len(), 1);

    let entries = log.get(10);
    assert_eq!(entries.len(), 1);
    assert_eq!(entries[0].command, "SET");
}

#[test]
fn test_slow_query_log_max_len() {
    let mut log = SlowQueryLog::with_settings(3, 0);

    for i in 0..5 {
        log.record(&format!("CMD{}", i), &[], Duration::from_millis(1), None);
    }

    assert_eq!(log.len(), 3);

    let entries = log.get(10);
    assert_eq!(entries[0].command, "CMD4");
    assert_eq!(entries[1].command, "CMD3");
    assert_eq!(entries[2].command, "CMD2");
}

#[test]
fn test_slow_query_threshold_update() {
    let mut log = SlowQueryLog::new();

    assert_eq!(log.threshold_us(), DEFAULT_SLOWLOG_THRESHOLD_US);

    log.set_threshold_us(5000);
    assert_eq!(log.threshold_us(), 5000);
}

#[test]
fn test_logging_manager() {
    let mut manager = LoggingManager::new();

    assert_eq!(manager.level(), Level::INFO);

    manager.set_level(Level::DEBUG);
    assert_eq!(manager.level(), Level::DEBUG);
}

#[test]
fn test_counter() {
    let mut counter = Counter::new();
    assert_eq!(counter.get(), 0);

    counter.inc();
    assert_eq!(counter.get(), 1);

    counter.inc_by(5);
    assert_eq!(counter.get(), 6);

    counter.reset();
    assert_eq!(counter.get(), 0);
}

#[test]
fn test_gauge() {
    let mut gauge = Gauge::new();
    assert_eq!(gauge.get(), 0);

    gauge.set(100);
    assert_eq!(gauge.get(), 100);

    gauge.inc();
    assert_eq!(gauge.get(), 101);

    gauge.dec();
    assert_eq!(gauge.get(), 100);
}

#[test]
fn test_connection_metrics() {
    let mut metrics = ConnectionMetrics::new();

    metrics.record_connection();
    metrics.record_connection();
    assert_eq!(metrics.connected_clients(), 2);
    assert_eq!(metrics.total_connections(), 2);

    metrics.record_disconnection();
    assert_eq!(metrics.connected_clients(), 1);

    metrics.record_rejected();
    assert_eq!(metrics.rejected_connections(), 1);
}

#[test]
fn test_trace_context() {
    let ctx = TraceContext::new();
    assert_eq!(ctx.trace_id.len(), 32);
    assert_eq!(ctx.span_id.len(), 16);
    assert!(ctx.sampled);
    assert!(ctx.parent_span_id.is_none());

    let child = ctx.child();
    assert_eq!(child.trace_id, ctx.trace_id);
    assert_ne!(child.span_id, ctx.span_id);
    assert_eq!(child.parent_span_id, Some(ctx.span_id.clone()));
}

#[test]
fn test_traceparent() {
    let ctx = TraceContext::new();
    let header = ctx.to_traceparent();
    assert!(header.starts_with("00-"));
    assert!(header.ends_with("-01"));

    let parsed = TraceContext::from_traceparent(&header).unwrap();
    assert_eq!(parsed.trace_id, ctx.trace_id);
    assert_eq!(parsed.span_id, ctx.span_id);
    assert!(parsed.sampled);
}

#[test]
fn slow_log_defaults_and_limits() {
    let mut log = SlowQueryLog::new();
    assert_eq!(log.max_len(), DEFAULT_SLOWLOG_MAX_LEN);
    log.set_threshold_us(0);
    log.record("A", &[], Duration::from_micros(0), Some("1.2.3.4:5".to_string()));
    log.record("B", &["x".to_string(), "y".to_string()], Duration::from_micros(7), None);
    assert_eq!(log.len(), 2);
    // Ids grow from zero in recording order.
    let entries = log.get(1);
    assert_eq!(entries.len(), 1);
    assert_eq!(entries[0].command, "B");
    assert_eq!(entries[0].id, 1);
    assert_eq!(entries[0].duration_us, 7);
    let pairs = entries[0].to_resp_array();
    assert_eq!(pairs[4], ("args".to_string(), "x y".to_string()));
    assert_eq!(pairs[0], ("id".to_string(), "1".to_string()));
    // Shrinking the limit drops the oldest entries.
    log.set_max_len(1);
    assert_eq!(log.len(), 1);
    assert_eq!(log.get(5)[0].command, "B");
    log.reset();
    assert!(log.is_empty());
}

#[test]
fn slow_log_threshold_is_inclusive() {
    let mut log = SlowQueryLog::with_settings(4, 100);
    log.record("EQ", &[], Duration::from_micros(100), None);
    log.record("LT", &[], Duration::from_micros(99), None);
    assert_eq!(log.len(), 1);
    assert_eq!(log.get(4)[0].command, "EQ");
}

#[test]
fn gauge_decrement_wraps_at_zero() {
    let mut gauge = Gauge::new();
    gauge.dec();
    assert_eq!(gauge.get(), u64::MAX);
    gauge.inc();
    assert_eq!(gauge.get(), 0);
}

#[test]
fn memory_peak_tracks_maximum() {
    let mut m = MemoryMetrics::new();
    m.set_used_memory(1024 * 1024);
    assert_eq!(m.used_memory(), 1024 * 1024);
    assert_eq!(m.used_memory_peak(), 1024 * 1024);
    m.set_used_memory(512 * 1024);
    assert_eq!(m.used_memory(), 512 * 1024);
    assert_eq!(m.used_memory_peak(), 1024 * 1024);
    m.record_hit();
    m.record_hit();
    m.record_miss();
    assert_eq!(m.keyspace_hits.get(), 2);
    assert_eq!(m.keyspace_misses.get(), 1);
}

#[test]
fn traceparent_rejects_malformed() {
    assert!(TraceContext::from_traceparent("01-abc-def-01").is_none());
    assert!(TraceContext::from_traceparent("00-abc-def").is_none());
    assert!(TraceContext::from_traceparent("").is_none());
    // Ids are taken as they stand.
    let short = TraceContext::from_traceparent("00-abc-def-01").unwrap();
    assert_eq!(short.trace_id, "abc");
    assert!(short.sampled);
    let ok = TraceContext::from_traceparent(
        "00-0123456789abcdef0123456789abcdef-0123456789abcdef-00",
    )
    .unwrap();
    assert!(!ok.sampled);
    assert_eq!(ok.span_id, "0123456789abcdef");
}

#[test]
fn command_span_attributes() {
    let mut span = CommandSpan::new("GET");
    span.add_attribute("key", "test_key");
    span.add_attribute("db", "0");
    assert_eq!(span.command, "GET");
    assert_eq!(span.attributes.len(), 2);
    let parent = TraceContext::new();
    let child = CommandSpan::with_parent("SET", &parent);
    assert_eq!(child.context.trace_id, parent.trace_id);
    assert_eq!(child.context.parent_span_id, Some(parent.span_id.clone()));
}

#[test]
fn test_format_bytes() {
    assert_eq!(MemoryMetrics::format_bytes(500), "500B");
    assert_eq!(MemoryMetrics::format_bytes(1024), "1.00K");
    assert_eq!(MemoryMetrics::format_bytes(1024 * 1024), "1.00M");
    assert_eq!(MemoryMetrics::format_bytes(1024 * 1024 * 1024), "1.00G");
}

#[test]
fn format_bytes_matches_float_formatting() {
    let samples: [u64; 12] = [
        0,
        1023,
        1536,
        1029,
        123_456,
        5 * 1024 * 1024 + 1,
        (1u64 << 40) + 12345,
        (1u64 << 53) + 1,
        (1u64 << 60) + 3,
        u64::MAX,
        u64::MAX - 2047,
        987_654_321_012,
    ];
    for b in samples {
        let expect = if b >= 1 << 30 {
            format!("{:.2}G", b as f64 / (1u64 << 30) as f64)
        } else if b >= 1 << 20 {
            format!("{:.2}M", b as f64 / (1u64 << 20) as f64)
        } else if b >= 1 << 10 {
            format!("{:.2}K", b as f64 / 1024.0)
        } else {
            format!("{}B", b)
        };
        assert_eq!(MemoryMetrics::format_bytes(b), expect, "bytes {}", b);
    }
}

#[test]
fn memory_metrics_track_peak_and_hits() {
    let mut metrics = MemoryMetrics::new();

    metrics.set_used_memory(1024 * 1024);
    assert_eq!(metrics.used_memory(), 1024 * 1024);
    assert_eq!(metrics.used_memory_peak(), 1024 * 1024);

    metrics.set_used_memory(512 * 1024);
    assert_eq!(metrics.used_memory(), 512 * 1024);
    assert_eq!(metrics.used_memory_peak(), 1024 * 1024);

    metrics.record_hit();
    metrics.record_hit();
    metrics.record_miss();
    assert_eq!(metrics.keyspace_hits.get(), 2);
    assert_eq!(metrics.keyspace_misses.get(), 1);
}
