use sview::history::{MetricHistory, MetricsHistory};
use sview::metrics::NodeMetrics;

#[test]
fn test_metric_history_push() {
    let mut history = MetricHistory::new(5);
    for i in 1..=10u64 {
        history.push(i);
    }
    assert_eq!(history.len(), 5);
    assert_eq!(history.current(), Some(10));
}

#[test]
fn test_metric_history_trend() {
    let mut history = MetricHistory::new(5);
    history.push(10);
    history.push(15);
    history.push(20);
    assert_eq!(history.trend(), Some(10));
}

#[test]
fn test_metric_history_stats() {
    let mut history = MetricHistory::new(5);
    history.push(10);
    history.push(20);
    history.push(30);
    assert_eq!(history.min(), Some(10));
    assert_eq!(history.max(), Some(30));
    assert_eq!(history.avg(), Some(20));
}

#[test]
fn test_ring_keeps_last_capacity() {
    // capacity + k pushes leave exactly the last `capacity`, oldest first
    let mut history = MetricHistory::new(3);
    for i in 1..=7u64 {
        history.push(i);
    }
    assert_eq!(history.len(), 3);
    assert_eq!(history.as_slice(), vec![5, 6, 7]);
}

#[test]
fn test_metrics_history_update_skips_absent() {
    let mut history = MetricsHistory::new(4);
    let mut m = NodeMetrics::default();
    m.block_height = Some(100);
    m.sync_progress = Some(10000);
    history.update(&m);
    history.update(&m);
    assert_eq!(history.block_height.len(), 2);
    assert_eq!(history.sync_progress.len(), 2);
    // absent fields pushed nothing
    assert_eq!(history.peers_connected.len(), 0);
    assert_eq!(history.mempool_txs.len(), 0);
}
