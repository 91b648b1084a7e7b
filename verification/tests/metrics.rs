use fourc::metrics::{Metrics, RESERVOIR_CAPACITY};

#[test]
fn new_metrics_are_zero() {
    let m = Metrics::new();
    assert_eq!(m.total_ops(), 0);
    assert_eq!(m.total_bytes(), 0);
    assert_eq!(m.latency_sum_ns(), 0);
    assert_eq!(m.latency_samples(), 0);
    assert_eq!(m.sample_count(), 0);
}

#[test]
fn recording_adds_to_sum_and_count() {
    let mut m = Metrics::new();
    m.record_latency(1500);
    m.record_latency(2500);
    assert_eq!(m.latency_sum_ns(), 4000);
    assert_eq!(m.latency_samples(), 2);
    assert_eq!(m.reservoir(), &vec![1500, 2500]);
}

#[test]
fn io_counters() {
    let mut m = Metrics::new();
    m.record_io(4096);
    m.record_io(4096);
    assert_eq!(m.total_ops(), 2);
    assert_eq!(m.total_bytes(), 8192);
    assert_eq!(m.latency_samples(), 0);
}

#[test]
fn latency_sum_wraps() {
    let mut m = Metrics::new();
    m.record_latency(u64::MAX - 1);
    m.record_latency(5);
    assert_eq!(m.latency_sum_ns(), 3);
    assert_eq!(m.latency_samples(), 2);
}

#[test]
fn totals_accumulate_over_many_calls() {
    let mut m = Metrics::new();
    let values = [7u64, 1_000, 33, 250_000, 9];
    for v in values {
        m.record_latency(v);
    }
    assert_eq!(m.latency_samples(), values.len() as u64);
    assert_eq!(m.latency_sum_ns(), values.iter().sum::<u64>());
}

#[test]
fn full_reservoir_replaces_drawn_sample() {
    let mut m = Metrics::new();
    for i in 0..RESERVOIR_CAPACITY as u64 {
        m.record_latency_with_draw(i, 0);
    }
    m.record_latency_with_draw(7_777_777, RESERVOIR_CAPACITY + 5);
    assert_eq!(m.sample_count(), RESERVOIR_CAPACITY);
    assert_eq!(m.reservoir()[5], 7_777_777);
    assert_eq!(m.reservoir()[4], 4);
    assert_eq!(m.latency_samples(), RESERVOIR_CAPACITY as u64 + 1);
}

#[test]
fn draw_is_ignored_while_there_is_room() {
    let mut m = Metrics::new();
    m.record_latency_with_draw(10, 12345);
    assert_eq!(m.reservoir(), &vec![10]);
}

#[test]
fn reservoir_stays_bounded_and_keeps_newest() {
    let mut m = Metrics::new();
    for i in 0..(RESERVOIR_CAPACITY as u64 + 10) {
        m.record_latency(i);
    }
    assert_eq!(m.sample_count(), RESERVOIR_CAPACITY);
    assert_eq!(m.latency_samples(), RESERVOIR_CAPACITY as u64 + 10);
    assert!(m.reservoir().contains(&(RESERVOIR_CAPACITY as u64 + 9)));
}

#[test]
fn samples_by_rank() {
    let mut m = Metrics::new();
    for v in [50u64, 10, 40, 20, 30] {
        m.record_latency(v);
    }
    assert_eq!(m.sample_at_rank(0), Some(10));
    assert_eq!(m.sample_at_rank(2), Some(30));
    assert_eq!(m.sample_at_rank(4), Some(50));
    assert_eq!(m.sample_at_rank(99), Some(50));
    assert_eq!(m.reservoir(), &vec![10, 20, 30, 40, 50]);
}

#[test]
fn no_sample_without_samples() {
    let mut m = Metrics::new();
    assert_eq!(m.sample_at_rank(0), None);
}

#[test]
fn lower_rank_never_above_higher() {
    let mut m = Metrics::new();
    for v in [9u64, 3, 3, 7, 1, 8] {
        m.record_latency(v);
    }
    let p50 = m.sample_at_rank(2).unwrap();
    let p99 = m.sample_at_rank(4).unwrap();
    assert!(p50 <= p99);
    assert_eq!((p50, p99), (3, 8));
}

#[test]
fn repeated_rank_queries_agree() {
    let mut m = Metrics::new();
    for v in [5u64, 1, 4, 2, 3] {
        m.record_latency(v);
    }
    let first = m.sample_at_rank(3);
    let again = m.sample_at_rank(3);
    assert_eq!(first, again);
    assert_eq!(first, Some(4));
}
