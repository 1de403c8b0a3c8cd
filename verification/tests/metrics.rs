use aozora_tools::metrics::{clamp_latency, hit_rate_operands, unix_millis, MetricCounters, HIST_MAX, HIST_MIN};

#[test]
fn new_counters_are_zero() {
    let m = MetricCounters::new();
    assert_eq!(m.edit_count, 0);
    assert_eq!(m.parse_count, 0);
    assert_eq!(m.cache_hit_total, 0);
    assert_eq!(m.cache_miss_total, 0);
    assert_eq!(m.cache_entries, 0);
    assert_eq!(m.cache_bytes_estimate, 0);
    assert_eq!(m.last_edit_at_unix_ms, 0);
}

#[test]
fn record_parse_accumulates_totals_and_overwrites_gauges() {
    let mut m = MetricCounters::new();
    assert_eq!(m.record_parse(100, 5, 2, 3, 1024, 1_700_000_000_000), 100);
    assert_eq!(m.record_parse(200, 10, 1, 4, 2048, 1_700_000_000_900), 200);
    assert_eq!(m.parse_count, 2);
    assert_eq!(m.cache_hit_total, 15);
    assert_eq!(m.cache_miss_total, 3);
    assert_eq!(m.cache_entries, 4);
    assert_eq!(m.cache_bytes_estimate, 2048);
    assert_eq!(m.edit_count, 0);
    assert_eq!(m.last_edit_at_unix_ms, 1_700_000_000_900);
}

#[test]
fn record_edit_counts_and_stamps() {
    let mut m = MetricCounters::new();
    m.record_edit(1_700_000_000_000);
    m.record_edit(1_700_000_000_500);
    assert_eq!(m.edit_count, 2);
    assert_eq!(m.last_edit_at_unix_ms, 1_700_000_000_500);
    assert_eq!(m.parse_count, 0);
}

#[test]
fn latency_is_clamped_into_the_histogram_range() {
    assert_eq!(clamp_latency(0), HIST_MIN);
    assert_eq!(clamp_latency(u64::MAX), HIST_MAX);
    assert_eq!(clamp_latency(42), 42);
    let mut m = MetricCounters::new();
    assert_eq!(m.record_parse(u64::MAX, 0, 0, 0, 0, 5), 1_000_000_000);
}

#[test]
fn counters_wrap_like_atomic_adds() {
    let mut m = MetricCounters::new();
    m.cache_hit_total = u64::MAX;
    m.parse_count = u64::MAX;
    m.record_parse(1, 2, 0, 0, 0, 7);
    assert_eq!(m.cache_hit_total, 1);
    assert_eq!(m.parse_count, 0);
}

#[test]
fn hit_rate_operands_cover_the_zero_and_saturating_cases() {
    assert_eq!(hit_rate_operands(0, 0), None);
    assert_eq!(hit_rate_operands(1, 4), Some((1, 5)));
    assert_eq!(
        hit_rate_operands(5_000_000_000, 1),
        Some((u32::MAX, u32::MAX))
    );
}

#[test]
fn unix_millis_saturates() {
    assert_eq!(unix_millis(1234), 1234);
    assert_eq!(unix_millis(u128::from(u64::MAX) + 1), u64::MAX);
}

#[test]
fn lookup_total_wraps_like_the_counters() {
    assert_eq!(hit_rate_operands(u64::MAX, 1), None);
    assert_eq!(hit_rate_operands(u64::MAX, 2), Some((u32::MAX, 1)));
}
