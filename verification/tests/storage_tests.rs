use sview::dates::{timestamp_to_date, date_to_timestamp, timestamp_to_iso8601};
use sview::metrics::NodeMetrics;
use sview::storage::{
    MetricSnapshot, StorageManager, DayFileEntry, csv_rows, decode_daily_file,
};
use sview::text::sanitize_node_name;

fn create_test_metrics() -> NodeMetrics {
    let mut m = NodeMetrics::default();
    m.connected = true;
    m.block_height = Some(10500000);
    m.slot_num = Some(125000000);
    m.epoch = Some(450);
    m.slot_in_epoch = Some(50000);
    m.peers_connected = Some(5);
    m.memory_used = Some(8_000_000_000);
    m.mempool_txs = Some(10);
    m.mempool_bytes = Some(5000);
    m.sync_progress = Some(10000);
    m.kes_period = Some(350);
    m.kes_remaining = Some(42);
    m
}

#[test]
fn test_sanitize_node_name() {
    assert_eq!(sanitize_node_name("My Node"), "my_node");
    assert_eq!(sanitize_node_name("relay-1"), "relay-1");
    assert_eq!(sanitize_node_name("node/test"), "node_test");
    assert_eq!(sanitize_node_name("Node@123"), "node_123");
}

#[test]
fn test_timestamp_to_date() {
    // 2024-01-15
    let (y, m, d) = timestamp_to_date(1705276800);
    assert_eq!((y, m, d), (2024, 1, 15));

    // 2023-12-31
    let (y, m, d) = timestamp_to_date(1704067199);
    assert_eq!((y, m, d), (2023, 12, 31));
}

#[test]
fn test_date_to_timestamp() {
    let ts = date_to_timestamp(2024, 1, 15);
    let (y, m, d) = timestamp_to_date(ts);
    assert_eq!((y, m, d), (2024, 1, 15));
}

#[test]
fn test_timestamp_to_iso8601() {
    let iso = timestamp_to_iso8601(1705276800);
    assert!(iso.starts_with("2024-01-15T"));
}

#[test]
fn test_metric_snapshot_from_metrics() {
    let metrics = create_test_metrics();
    let snapshot = MetricSnapshot::from_metrics(&metrics, 1705276800);

    assert_eq!(snapshot.block_height, Some(10500000));
    assert_eq!(snapshot.peers_connected, Some(5));
    assert_eq!(snapshot.sync_progress, Some(10000));
    assert!(snapshot.timestamp > 0);
}

#[test]
fn test_storage_save_and_load() {
    let mut manager = StorageManager::new("Test Node").with_base_dir("data");
    let metrics = create_test_metrics();
    let now: u64 = 1705276800;

    // Save should succeed
    let saved = manager.save_snapshot(&metrics, now, None);
    assert!(saved.is_some());
    let (path, bytes) = saved.unwrap();
    assert_eq!(path, "data/history/test_node/2024/01/15.json.gz");

    // Immediate second save should skip (hourly limit)
    let saved2 = manager.save_snapshot(&metrics, now + 10, None);
    assert!(saved2.is_none());

    // Load history from what was written
    let daily = decode_daily_file(&bytes).unwrap();
    assert_eq!(daily.node_name, "test_node");
    let history = manager.load_history(vec![Some(daily)], 100);
    assert_eq!(history.len(), 1);
    assert_eq!(history[0].block_height, Some(10500000));
}

#[test]
fn test_save_interval_elapsed() {
    let mut manager = StorageManager::new("Test Node").with_base_dir("data");
    let metrics = create_test_metrics();
    let first = manager.save_snapshot(&metrics, 1000, None);
    assert!(first.is_some());
    // exactly at the interval a save is due again, and it appends to
    // the day's decoded file
    let daily = decode_daily_file(&first.unwrap().1).unwrap();
    let second = manager.save_snapshot(&metrics, 1000 + 3600, Some(daily));
    assert!(second.is_some());
    let both = decode_daily_file(&second.unwrap().1).unwrap();
    assert_eq!(both.snapshots.len(), 2);
}

#[test]
fn test_disconnected_not_saved() {
    let mut manager = StorageManager::new("Test Node").with_base_dir("data");
    let mut metrics = create_test_metrics();
    metrics.connected = false;

    let saved = manager.save_snapshot(&metrics, 1705276800, None);
    assert!(saved.is_none());
}

#[test]
fn test_populate_history() {
    let mut manager = StorageManager::new("Test Node").with_base_dir("data");
    let metrics = create_test_metrics();
    let saved = manager.save_snapshot(&metrics, 1705276800, None).unwrap();
    let daily = decode_daily_file(&saved.1).unwrap();

    let mut history = sview::history::MetricsHistory::new(100);
    let snapshots = manager.load_history(vec![Some(daily)], 100);
    history.populate_history(&snapshots);

    assert_eq!(history.block_height.len(), 1);
    assert_eq!(history.peers_connected.len(), 1);
}

#[test]
fn test_csv_export() {
    let mut manager = StorageManager::new("Test Node").with_base_dir("data");
    let metrics = create_test_metrics();
    let saved = manager.save_snapshot(&metrics, 1705276800, None).unwrap();
    let daily = decode_daily_file(&saved.1).unwrap();
    let snapshots = manager.load_history(vec![Some(daily)], usize::MAX);

    let rows = csv_rows(&snapshots);
    assert_eq!(rows.len(), snapshots.len() + 1);
    assert!(rows[0].contains("timestamp,datetime"));
    assert!(rows[1].contains("10500000"));
    assert!(rows[1].contains("100.00"));
}

#[test]
fn test_csv_absent_fields_empty() {
    // absent optional fields serialize as empty cells, never as zero
    let mut m = NodeMetrics::default();
    m.connected = true;
    m.block_height = Some(7);
    let snap = MetricSnapshot::from_metrics(&m, 60);
    let rows = csv_rows(&vec![snap]);
    assert_eq!(rows[1], "60,1970-01-01T00:01:00Z,7,,,,,,,,,,");
}

#[test]
fn test_corrupt_daily_file_skipped() {
    // a truncated gzip stream decodes to nothing; other days still load
    let mut manager = StorageManager::new("Test Node").with_base_dir("data");
    let metrics = create_test_metrics();
    let (_, bytes) = manager.save_snapshot(&metrics, 1705276800, None).unwrap();

    let mut corrupt = bytes.clone();
    corrupt.truncate(corrupt.len() / 2);
    assert!(decode_daily_file(&corrupt).is_none());

    let good = decode_daily_file(&bytes);
    assert!(good.is_some());
    let history = manager.load_history(vec![None, good], 100);
    assert_eq!(history.len(), 1);
}

#[test]
fn test_load_history_sorts_and_truncates() {
    let manager = StorageManager::new("n").with_base_dir("data");
    let mut a = NodeMetrics::default();
    a.connected = true;
    let snaps: Vec<MetricSnapshot> = vec![
        MetricSnapshot::from_metrics(&a, 300),
        MetricSnapshot::from_metrics(&a, 100),
        MetricSnapshot::from_metrics(&a, 200),
    ];
    let daily = sview::storage::DailySnapshots {
        node_name: "n".to_string(),
        snapshots: snaps,
    };
    let all = manager.load_history(vec![Some(daily.clone())], 10);
    assert_eq!(all.len(), 3);
    assert_eq!(all[0].timestamp, 100);
    assert_eq!(all[2].timestamp, 300);
    // truncation keeps the most recent
    let recent = manager.load_history(vec![Some(daily)], 2);
    assert_eq!(recent.len(), 2);
    assert_eq!(recent[0].timestamp, 200);
    assert_eq!(recent[1].timestamp, 300);
}

#[test]
fn test_absent_fields_survive_the_daily_file() {
    // absent fields stay absent across encode and decode
    let mut manager = StorageManager::new("n").with_base_dir("data");
    let mut m = NodeMetrics::default();
    m.connected = true;
    m.epoch = Some(0);
    let (_, bytes) = manager.save_snapshot(&m, 77, None).unwrap();
    let daily = decode_daily_file(&bytes).unwrap();
    assert_eq!(daily.snapshots.len(), 1);
    let s = &daily.snapshots[0];
    assert_eq!(s.timestamp, 77);
    assert_eq!(s.epoch, Some(0));
    assert_eq!(s.block_height, None);
    assert_eq!(s.kes_remaining, None);
}

#[test]
fn test_cleanup_removes_exactly_old_files() {
    let manager = StorageManager::new("n").with_base_dir("data").with_retention_days(30);
    let now: u64 = date_to_timestamp(2024, 3, 1);
    let entries = vec![
        DayFileEntry {
            year: "2024".to_string(), month: "01".to_string(), day: "15.json.gz".to_string(),
        },
        DayFileEntry {
            year: "2024".to_string(), month: "02".to_string(), day: "20.json.gz".to_string(),
        },
        DayFileEntry {
            year: "2024".to_string(), month: "02".to_string(), day: "README".to_string(),
        },
    ];
    let remove = manager.cleanup_old_data(&entries, now);
    // only the january file lies outside the 30-day window; the
    // unparseable name is left alone
    assert_eq!(remove, vec![true, false, false]);
}
