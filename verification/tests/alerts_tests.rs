use sview::alerts::{AlertManager, AlertSeverity};

#[test]
fn test_kes_alert() {
    let mut manager = AlertManager::new("Test BP");
    assert!(manager.latest_critical().is_none());

    manager.check_kes_expiry(Some(3), 1000);
    assert!(manager.latest_critical().is_some());
    assert_eq!(manager.latest_critical().unwrap().severity, AlertSeverity::Critical);
}

#[test]
fn test_peer_alert() {
    let mut manager = AlertManager::new("Test Relay");
    manager.check_peer_count(Some(0), 1000);
    assert!(manager.latest_critical().is_some());
    assert_eq!(
        manager.latest_critical().unwrap().severity,
        AlertSeverity::Critical
    );
}

#[test]
fn test_sync_alert() {
    let mut manager = AlertManager::new("Test Node");
    manager.check_sync_progress(Some(8500), 1000);
    assert!(manager.latest_critical().is_some());
}

#[test]
fn test_no_alert_threshold() {
    let mut manager = AlertManager::new("Test Node");
    manager.check_kes_expiry(Some(20), 1000);
    assert!(manager.latest_critical().is_none());

    manager.check_peer_count(Some(5), 1000);
    assert!(manager.latest_critical().is_none());

    manager.check_sync_progress(Some(9990), 1000);
    assert!(manager.latest_critical().is_none());
}

#[test]
fn test_kes_no_alert_at_25() {
    let mut manager = AlertManager::new("Test BP");
    manager.check_kes_expiry(Some(25), 1000);
    assert!(manager.latest_critical().is_none());
    assert!(manager.alerts_since(0).is_empty());
}

#[test]
fn test_cooldown_suppression() {
    // with a persistently unhealthy value, exactly one alert fires at
    // the first check, none within the cooldown, one more after it
    let mut manager = AlertManager::new("Test BP");
    let first = manager.check_kes_expiry(Some(3), 1000);
    assert!(first.is_some());
    for t in [1001u64, 1100, 1000 + 3599] {
        assert!(manager.check_kes_expiry(Some(3), t).is_none());
    }
    let second = manager.check_kes_expiry(Some(3), 1000 + 3600);
    assert!(second.is_some());
    assert_eq!(manager.alerts_since(0).len(), 2);
}

#[test]
fn test_block_stall_alert() {
    let mut manager = AlertManager::new("Test Node");
    let fired = manager.check_block_stall(Some(100), None, Some(301), 5000);
    let alert = fired.unwrap();
    assert_eq!(alert.severity, AlertSeverity::Warning);
    assert_eq!(alert.message, "No new blocks for 301 seconds (height: 100)");
    // a fresh stall below the threshold stays quiet
    let mut quiet = AlertManager::new("Test Node");
    assert!(quiet.check_block_stall(Some(100), None, Some(300), 5000).is_none());
}

#[test]
fn test_alert_formats() {
    let mut manager = AlertManager::new("bp1");
    let alert = manager.check_peer_count(Some(1), 1705276800).unwrap();
    assert_eq!(alert.severity, AlertSeverity::Warning);
    assert_eq!(alert.display(), "[WARN] Low Peer Count - Only 1 peer(s) connected");
    assert_eq!(
        alert.log_format(),
        "2024-01-15T00:00:00Z | bp1 | WARN | Low Peer Count | Only 1 peer(s) connected"
    );
}

#[test]
fn test_sync_alert_message_two_decimals() {
    let mut manager = AlertManager::new("n");
    let alert = manager.check_sync_progress(Some(8505), 10).unwrap();
    assert_eq!(alert.message, "Node is 85.05% synced");
    assert_eq!(alert.severity, AlertSeverity::Critical);
    let mut warn = AlertManager::new("n");
    let alert2 = warn.check_sync_progress(Some(9400), 10).unwrap();
    assert_eq!(alert2.severity, AlertSeverity::Warning);
}
