use crab_city::protocol::{BackpressureStats, DEFAULT_MAX_HISTORY_BYTES};

#[test]
fn test_backpressure_stats_initial_state() {
    let stats = BackpressureStats::new();
    let snapshot = stats.snapshot();
    assert_eq!(snapshot.state_broadcasts_sent, 0);
    assert_eq!(snapshot.output_messages_sent, 0);
    assert_eq!(snapshot.output_messages_lagged, 0);
    assert_eq!(snapshot.total_lagged_count, 0);
}

#[test]
fn test_backpressure_stats_tracking() {
    let mut stats = BackpressureStats::new();
    stats.record_state_send(1);
    stats.record_state_send(2);
    stats.record_output_send();
    stats.record_lag(5);
    stats.record_lag(10);
    let snapshot = stats.snapshot();
    assert_eq!(snapshot.state_broadcasts_sent, 2);
    assert_eq!(snapshot.output_messages_sent, 1);
    assert_eq!(snapshot.output_messages_lagged, 2);
    assert_eq!(snapshot.total_lagged_count, 15);
}

#[test]
fn test_backpressure_stats_no_receivers() {
    let mut stats = BackpressureStats::new();
    stats.record_state_send(0);
    stats.record_state_send(1);
    let snapshot = stats.snapshot();
    assert_eq!(snapshot.state_broadcasts_sent, 2);
    assert_eq!(snapshot.state_broadcasts_no_receivers, 1);
}

#[test]
fn test_default_max_history_bytes_constant() {
    assert_eq!(DEFAULT_MAX_HISTORY_BYTES, 64 * 1024);
}

#[test]
fn backpressure_counters_wrap() {
    let mut stats = BackpressureStats::new();
    stats.total_lagged_count = u64::MAX - 1;
    stats.record_lag(3);
    assert_eq!(stats.snapshot().total_lagged_count, 1);
    assert_eq!(stats.snapshot().output_messages_lagged, 1);
}
