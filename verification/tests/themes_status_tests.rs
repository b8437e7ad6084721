use sview::themes::Theme;
use sview::status::{
    HealthStatus, kes_health, memory_health, overall_health, peer_health, sync_health,
};

#[test]
fn test_theme_cycle() {
    let mut theme = Theme::DarkDefault;
    for _ in 0..7 {
        theme = theme.next();
    }
    assert_eq!(theme, Theme::DarkDefault);
}

#[test]
fn test_all_themes_have_names() {
    for theme in Theme::all() {
        assert!(!theme.display_name().is_empty());
    }
}

#[test]
fn test_health_thresholds() {
    assert_eq!(peer_health(Some(5)), HealthStatus::Good);
    assert_eq!(peer_health(Some(2)), HealthStatus::Warning);
    assert_eq!(peer_health(Some(0)), HealthStatus::Critical);
    assert_eq!(peer_health(None), HealthStatus::Warning);

    assert_eq!(sync_health(Some(9990)), HealthStatus::Good);
    assert_eq!(sync_health(Some(9500)), HealthStatus::Warning);
    assert_eq!(sync_health(Some(9499)), HealthStatus::Critical);

    assert_eq!(memory_health(Some(11_999_999_999)), HealthStatus::Good);
    assert_eq!(memory_health(Some(13_000_000_000)), HealthStatus::Warning);
    assert_eq!(memory_health(Some(14_000_000_000)), HealthStatus::Critical);

    assert_eq!(kes_health(Some(20)), HealthStatus::Good);
    assert_eq!(kes_health(Some(5)), HealthStatus::Warning);
    assert_eq!(kes_health(Some(4)), HealthStatus::Critical);
}

#[test]
fn test_overall_health_worst_wins() {
    assert_eq!(
        overall_health(false, Some(9), Some(10000), Some(1), Some(99), Some(1)),
        HealthStatus::Critical
    );
    assert_eq!(
        overall_health(true, Some(9), Some(10000), Some(1), Some(99), Some(1)),
        HealthStatus::Good
    );
    assert_eq!(
        overall_health(true, Some(3), Some(10000), Some(1), Some(99), Some(1)),
        HealthStatus::Warning
    );
    assert_eq!(
        overall_health(true, Some(3), Some(1000), Some(1), Some(99), Some(1)),
        HealthStatus::Critical
    );
}
