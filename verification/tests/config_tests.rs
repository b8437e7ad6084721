use sview::config::{AppConfig, CliArgs, Config, FileConfig, GlobalConfig, NodeConfig, NodeRole};

#[test]
fn test_default_config() {
    let config = Config::default();
    assert_eq!(config.prom_port, 12798);
    assert_eq!(config.prom_host, "127.0.0.1");
}

#[test]
fn test_metrics_url() {
    let config = Config::default();
    assert!(config.metrics_url().contains("12798"));
    assert!(config.metrics_url().contains("/metrics"));
    assert_eq!(config.metrics_url(), "http://127.0.0.1:12798/metrics");
}

fn bare_args() -> CliArgs {
    CliArgs {
        node_name: None,
        network: None,
        prom_host: None,
        prom_port: None,
        prom_timeout_secs: 3,
        refresh_interval_secs: 2,
        history_length: 60,
        epoch_length: 432000,
        config: None,
        export: None,
    }
}

#[test]
fn test_resolve_single_node_default() {
    let file = FileConfig { global: GlobalConfig::default(), nodes: vec![] };
    let app = AppConfig::resolve(bare_args(), file);
    assert_eq!(app.nodes.len(), 1);
    assert_eq!(app.nodes[0].name, "Cardano Node");
    assert_eq!(app.nodes[0].host, "127.0.0.1");
    assert_eq!(app.nodes[0].port, 12798);
    assert!(!app.is_multi_node());
}

#[test]
fn test_resolve_multi_node_from_file() {
    let file = FileConfig {
        global: GlobalConfig::default(),
        nodes: vec![
            NodeConfig {
                name: "Relay 1".to_string(),
                host: "10.0.0.1".to_string(),
                port: 12798,
                role: NodeRole::Relay,
                network: None,
                version: None,
            },
            NodeConfig {
                name: "Block Producer".to_string(),
                host: "10.0.0.2".to_string(),
                port: 12798,
                role: NodeRole::Bp,
                network: Some("preprod".to_string()),
                version: None,
            },
        ],
    };
    let app = AppConfig::resolve(bare_args(), file);
    assert_eq!(app.nodes.len(), 2);
    assert_eq!(app.nodes[0].name, "Relay 1");
    assert_eq!(app.nodes[0].network, "mainnet");
    assert_eq!(app.nodes[1].role, NodeRole::Bp);
    assert_eq!(app.nodes[1].network, "preprod");
    assert!(app.is_multi_node());
}

#[test]
fn test_resolve_cli_overrides_file() {
    let mut args = bare_args();
    args.prom_host = Some("192.168.0.9".to_string());
    let file = FileConfig {
        global: GlobalConfig::default(),
        nodes: vec![NodeConfig {
            name: "Ignored".to_string(),
            host: "10.0.0.1".to_string(),
            port: 1,
            role: NodeRole::Relay,
            network: None,
            version: None,
        }],
    };
    let app = AppConfig::resolve(args, file);
    assert_eq!(app.nodes.len(), 1);
    assert_eq!(app.nodes[0].host, "192.168.0.9");
}

#[test]
fn test_config_from_node() {
    let file = FileConfig { global: GlobalConfig::default(), nodes: vec![] };
    let app = AppConfig::resolve(bare_args(), file);
    let config = Config::from_node(&app.nodes[0], &app);
    assert_eq!(config.node_name, "Cardano Node");
    assert_eq!(config.prom_timeout(), 3);
    assert_eq!(config.refresh_interval(), 2);
}
