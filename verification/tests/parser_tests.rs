use sview::metrics::{parse_metric_line, parse_prometheus_metrics, NodeType};
use sview::value::MetricValue;

#[test]
fn test_parse_metric_line_simple() {
    let (name, value) = parse_metric_line("cardano_node_metrics_blockNum_int 12345").unwrap();
    assert_eq!(name, "cardano_node_metrics_blockNum_int");
    assert_eq!(value, MetricValue::from_u64(12345));
}

#[test]
fn test_parse_metric_line_with_labels() {
    let (name, value) = parse_metric_line("http_requests_total{method=\"GET\"} 1234").unwrap();
    assert_eq!(name, "http_requests_total");
    assert_eq!(value, MetricValue::from_u64(1234));
}

#[test]
fn test_parse_metric_line_fractional() {
    let (name, value) = parse_metric_line("cardano_node_metrics_density_real 0.05").unwrap();
    assert_eq!(name, "cardano_node_metrics_density_real");
    assert_eq!(value, MetricValue::from_micros(false, 50_000));
}

#[test]
fn test_parse_metric_line_exponent() {
    let (_, value) = parse_metric_line("m 1.5e3").unwrap();
    assert_eq!(value, MetricValue::from_u64(1500));
    let (_, value) = parse_metric_line("m -2.5").unwrap();
    assert_eq!(value, MetricValue::from_micros(true, 2_500_000));
    let (_, value) = parse_metric_line("m NaN").unwrap();
    assert_eq!(value, MetricValue::NotANumber);
    let (_, value) = parse_metric_line("m +Inf").unwrap();
    assert_eq!(value, MetricValue::Infinite { neg: false });
}

#[test]
fn test_parse_metric_line_rejects() {
    assert!(parse_metric_line("no_value_here").is_none());
    assert!(parse_metric_line("name not_a_number").is_none());
    assert!(parse_metric_line("").is_none());
}

#[test]
fn test_parse_prometheus_metrics() {
    let text = r#"
# HELP cardano_node_metrics_blockNum_int Block number
# TYPE cardano_node_metrics_blockNum_int gauge
cardano_node_metrics_blockNum_int 10500000
cardano_node_metrics_slotNum_int 125000000
cardano_node_metrics_epoch_int 450
cardano_node_metrics_connectedPeers_int 5
"#;
    let metrics = parse_prometheus_metrics(text, 0);
    assert_eq!(metrics.block_height, Some(10500000));
    assert_eq!(metrics.slot_num, Some(125000000));
    assert_eq!(metrics.epoch, Some(450));
    assert_eq!(metrics.peers_connected, Some(5));
    assert_eq!(metrics.node_type, NodeType::CardanoNode);
    assert!(metrics.connected);
}

#[test]
fn test_parse_uptime_metric() {
    let text = r#"
cardano_node_metrics_upTime_ns 86400000000000
"#;
    let metrics = parse_prometheus_metrics(text, 0);
    // 86400 seconds = 1 day
    assert_eq!(metrics.uptime_seconds, Some(86400));
}

#[test]
fn test_parse_kes_metrics() {
    let text = r#"
cardano_node_metrics_currentKESPeriod_int 350
cardano_node_metrics_remainingKESPeriods_int 42
cardano_node_metrics_operationalCertificateExpiryKESPeriod_int 62
"#;
    let metrics = parse_prometheus_metrics(text, 0);
    assert_eq!(metrics.kes_period, Some(350));
    assert_eq!(metrics.kes_remaining, Some(42));
    assert_eq!(metrics.kes_periods_per_cert, Some(62));
}

#[test]
fn test_parse_p2p_metrics() {
    let text = r#"
cardano_node_metrics_p2p_enabled_int 1
cardano_node_metrics_p2p_coldPeersCount_int 5
cardano_node_metrics_p2p_warmPeersCount_int 15
cardano_node_metrics_p2p_hotPeersCount_int 12
cardano_node_metrics_connectionManager_incomingConns 10
cardano_node_metrics_connectionManager_outgoingConns 8
cardano_node_metrics_connectionManager_duplexConns 20
cardano_node_metrics_connectionManager_unidirectionalConns 8
"#;
    let metrics = parse_prometheus_metrics(text, 0);
    assert_eq!(metrics.p2p.enabled, Some(true));
    assert_eq!(metrics.p2p.cold_peers, Some(5));
    assert_eq!(metrics.p2p.warm_peers, Some(15));
    assert_eq!(metrics.p2p.hot_peers, Some(12));
    assert_eq!(metrics.incoming_connections, Some(10));
    assert_eq!(metrics.outgoing_connections, Some(8));
    assert_eq!(metrics.full_duplex_connections, Some(20));
    assert_eq!(metrics.unidirectional_connections, Some(8));
}

#[test]
fn test_alias_priority_order_independent() {
    // the higher-priority alias wins regardless of line order
    let first = "cardano_node_metrics_RTS_gcLiveBytes_int 100\ncardano_node_metrics_Mem_resident_int 200\n";
    let second = "cardano_node_metrics_Mem_resident_int 200\ncardano_node_metrics_RTS_gcLiveBytes_int 100\n";
    assert_eq!(parse_prometheus_metrics(first, 0).memory_used, Some(100));
    assert_eq!(parse_prometheus_metrics(second, 0).memory_used, Some(100));
    // the fallback alias only fills the field when the primary is absent
    let only_fallback = "cardano_node_metrics_Mem_resident_int 200\n";
    assert_eq!(parse_prometheus_metrics(only_fallback, 0).memory_used, Some(200));
}

#[test]
fn test_invalid_values_are_absent_not_zero() {
    // negative and non-finite counter samples are treated as absent
    let text = "cardano_node_metrics_remainingKESPeriods_int -3\ncardano_node_metrics_blockNum_int NaN\n";
    let metrics = parse_prometheus_metrics(text, 0);
    assert_eq!(metrics.kes_remaining, None);
    assert_eq!(metrics.block_height, None);
    // but the raw samples are still held
    assert_eq!(metrics.raw.get("cardano_node_metrics_remainingKESPeriods_int"),
        Some(MetricValue::from_micros(true, 3_000_000)));
    assert_eq!(metrics.raw.get("cardano_node_metrics_blockNum_int"),
        Some(MetricValue::NotANumber));
}

#[test]
fn test_node_type_detection() {
    assert_eq!(parse_prometheus_metrics("dingo_blocks 5\n", 0).node_type, NodeType::Dingo);
    assert_eq!(parse_prometheus_metrics("amaru_x 5\n", 0).node_type, NodeType::Amaru);
    assert_eq!(parse_prometheus_metrics("other_metric 5\n", 0).node_type, NodeType::Unknown);
}

#[test]
fn test_peer_fallback_sum() {
    // with no direct peer metric, the cold/warm/hot sum stands in
    let text = "cardano_node_metrics_peerSelection_cold 2\ncardano_node_metrics_peerSelection_warm 3\ncardano_node_metrics_peerSelection_hot 4\n";
    let metrics = parse_prometheus_metrics(text, 0);
    assert_eq!(metrics.peers_connected, Some(9));
    // the direct metric is never overridden
    let text2 = "cardano_node_metrics_connectedPeers_int 7\ncardano_node_metrics_peerSelection_hot 4\n";
    assert_eq!(parse_prometheus_metrics(text2, 0).peers_connected, Some(7));
}

#[test]
fn test_zero_peers_is_present_and_critical() {
    // zero peers is a real (critical) observation, not an absent one
    let text = "cardano_node_metrics_connectedPeers_int 0\n";
    let metrics = parse_prometheus_metrics(text, 0);
    assert_eq!(metrics.peers_connected, Some(0));
    assert_eq!(metrics.kes_remaining, None);

    let mut manager = sview::alerts::AlertManager::new("relay");
    let fired = manager.check_peer_count(metrics.peers_connected, 1000);
    assert_eq!(fired.unwrap().severity, sview::alerts::AlertSeverity::Critical);
}

#[test]
fn test_kes_payload_drives_alert() {
    let low = parse_prometheus_metrics("cardano_node_metrics_remainingKESPeriods_int 3\n", 0);
    assert_eq!(low.kes_remaining, Some(3));
    let mut manager = sview::alerts::AlertManager::new("bp");
    let fired = manager.check_kes_expiry(low.kes_remaining, 1000);
    assert_eq!(fired.unwrap().severity, sview::alerts::AlertSeverity::Critical);

    let fine = parse_prometheus_metrics("cardano_node_metrics_remainingKESPeriods_int 25\n", 0);
    assert_eq!(fine.kes_remaining, Some(25));
    let mut quiet = sview::alerts::AlertManager::new("bp");
    assert!(quiet.check_kes_expiry(fine.kes_remaining, 1000).is_none());
}

#[test]
fn test_sync_progress_estimate() {
    // one slot per second after the rate transition: a node at the
    // expected slot reads 100.00%
    let now: u64 = 1700000000;
    let expected_slot = 4492800 + (now - 1596059091);
    let text = format!("cardano_node_metrics_slotNum_int {}\n", expected_slot);
    let metrics = parse_prometheus_metrics(&text, now);
    assert_eq!(metrics.sync_progress, Some(10000));
    // half the expected slot reads 50.00%
    let text2 = format!("cardano_node_metrics_slotNum_int {}\n", expected_slot / 2);
    let metrics2 = parse_prometheus_metrics(&text2, now);
    assert_eq!(metrics2.sync_progress, Some(4999));
}
