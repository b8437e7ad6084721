//! Configuration resolution: command-line arguments and an optional
//! multi-node configuration file resolve into per-node runtime
//! configurations. Reading the file and the environment belongs to the
//! caller; this module holds the data and the resolution rule.

use vstd::prelude::*;
use crate::text::{dec_digits, push_u64};

verus! {

/// Command-line arguments, already parsed by the caller.
#[derive(Debug, Clone)]
pub struct CliArgs {
    /// Display name for the node.
    pub node_name: Option<String>,
    /// Network name (mainnet, preprod, ...).
    pub network: Option<String>,
    /// Metrics endpoint host.
    pub prom_host: Option<String>,
    /// Metrics endpoint port.
    pub prom_port: Option<u16>,
    /// Request timeout in seconds.
    pub prom_timeout_secs: u64,
    /// Refresh interval in seconds.
    pub refresh_interval_secs: u64,
    /// Sample capacity of each metric history ring.
    pub history_length: usize,
    /// Epoch length in slots.
    pub epoch_length: u64,
    /// Configuration file path override.
    pub config: Option<String>,
    /// CSV export target, when exporting instead of monitoring.
    pub export: Option<String>,
}

/// Node role, for display and behavior hints.
#[derive(Debug, Clone, Copy, PartialEq, Eq, Structural)]
pub enum NodeRole {
    Relay,
    Bp,
}

impl Default for NodeRole {
    fn default() -> (r: Self)
        ensures
            r == NodeRole::Relay,
    {
        NodeRole::Relay
    }
}

impl NodeRole {
    /// The display label of the role.
    pub fn label(&self) -> (r: &'static str)
        ensures
            *self == NodeRole::Relay ==> r@ == "Relay"@,
            *self == NodeRole::Bp ==> r@ == "BP"@,
    {
        match self {
            NodeRole::Relay => "Relay",
            NodeRole::Bp => "BP",
        }
    }
}

/// Global settings of the configuration file.
#[derive(Debug, Clone)]
pub struct GlobalConfig {
    /// Default network for all nodes.
    pub network: String,
    /// Request timeout in seconds.
    pub timeout_secs: u64,
    /// Refresh interval in seconds.
    pub refresh_interval_secs: u64,
    /// Sample capacity of each metric history ring.
    pub history_length: usize,
    /// Epoch length in slots.
    pub epoch_length: u64,
    /// Color theme name.
    pub theme: String,
}

impl Default for GlobalConfig {
    fn default() -> (r: Self)
        ensures
            r.network@ == "mainnet"@,
            r.timeout_secs == 3,
            r.refresh_interval_secs == 2,
            r.history_length == 60,
            r.epoch_length == 432000,
            r.theme@ == "dark-default"@,
    {
        let mut network = String::new();
        network.append("mainnet");
        let mut theme = String::new();
        theme.append("dark-default");
        proof {
            assert(network@ =~= "mainnet"@);
            assert(theme@ =~= "dark-default"@);
        }
        GlobalConfig {
            network,
            timeout_secs: 3,
            refresh_interval_secs: 2,
            history_length: 60,
            epoch_length: 432000,
            theme,
        }
    }
}

/// One node in the configuration file.
#[derive(Debug, Clone)]
pub struct NodeConfig {
    /// Display name for this node.
    pub name: String,
    /// Metrics endpoint host.
    pub host: String,
    /// Metrics endpoint port.
    pub port: u16,
    /// Node role.
    pub role: NodeRole,
    /// Network override for this node.
    pub network: Option<String>,
    /// Node software version, when known.
    pub version: Option<String>,
}

/// The configuration file.
#[derive(Debug, Clone)]
pub struct FileConfig {
    /// Global settings.
    pub global: GlobalConfig,
    /// Configured nodes.
    pub nodes: Vec<NodeConfig>,
}

/// Resolved runtime configuration of one node.
#[derive(Debug, Clone)]
pub struct NodeRuntimeConfig {
    /// Display name.
    pub name: String,
    /// Metrics endpoint host.
    pub host: String,
    /// Metrics endpoint port.
    pub port: u16,
    /// Node role.
    pub role: NodeRole,
    /// Network the node runs on.
    pub network: String,
    /// Node software version, when known.
    pub version: Option<String>,
}

/// The metrics endpoint of a host and port.
pub open spec fn spec_metrics_url(host: Seq<char>, port: u16) -> Seq<char> {
    "http://"@ + host + seq![':'] + dec_digits(port as nat) + "/metrics"@
}

impl NodeRuntimeConfig {
    /// The full metrics endpoint of this node.
    pub fn metrics_url(&self) -> (r: String)
        ensures
            r@ == spec_metrics_url(self.host@, self.port),
    {
        build_metrics_url(self.host.as_str(), self.port)
    }
}

/// Build a metrics endpoint string.
fn build_metrics_url(host: &str, port: u16) -> (r: String)
    ensures
        r@ == spec_metrics_url(host@, port),
{
    let mut out = String::new();
    out.append("http://");
    out.append(host);
    out.push(':');
    push_u64(&mut out, port as u64);
    out.append("/metrics");
    proof {
        assert(out@ =~= spec_metrics_url(host@, port));
    }
    out
}

/// Resolved application configuration.
#[derive(Debug, Clone)]
pub struct AppConfig {
    /// All configured nodes.
    pub nodes: Vec<NodeRuntimeConfig>,
    /// Request timeout in seconds.
    pub timeout_secs: u64,
    /// Refresh interval in seconds.
    pub refresh_interval_secs: u64,
    /// Sample capacity of each metric history ring.
    pub history_length: usize,
    /// Epoch length in slots.
    pub epoch_length: u64,
    /// CSV export target, when exporting instead of monitoring.
    pub export_path: Option<String>,
}

impl AppConfig {
    /// Resolve the final configuration from the command line and the
    /// configuration file: naming a host or port on the command line
    /// selects single-node mode; otherwise the file's nodes are used,
    /// each falling back to the global network. With neither, a single
    /// local default node results.
    pub fn resolve(args: CliArgs, file_config: FileConfig) -> (r: Self)
        ensures
            r.timeout_secs == args.prom_timeout_secs,
            r.refresh_interval_secs == args.refresh_interval_secs,
            r.history_length == args.history_length,
            r.epoch_length == args.epoch_length,
            r.export_path == args.export,
            ({
                let cli_mode = args.prom_host is Some || args.prom_port is Some
                    || file_config.nodes@.len() == 0;
                &&& cli_mode ==> r.nodes@.len() == 1
                &&& cli_mode ==> r.nodes@[0].name@ == (match args.node_name {
                        Some(n) => n@,
                        None => "Cardano Node"@,
                    })
                &&& cli_mode ==> r.nodes@[0].host@ == (match args.prom_host {
                        Some(h) => h@,
                        None => "127.0.0.1"@,
                    })
                &&& cli_mode ==> r.nodes@[0].port == (match args.prom_port {
                        Some(p) => p,
                        None => 12798u16,
                    })
                &&& cli_mode ==> r.nodes@[0].role == NodeRole::Relay
                &&& cli_mode ==> r.nodes@[0].version is None
                &&& !cli_mode ==> r.nodes@.len() == file_config.nodes@.len()
                &&& !cli_mode ==> forall|i: int| 0 <= i < r.nodes@.len() ==> {
                        let n = file_config.nodes@[i];
                        &&& (#[trigger] r.nodes@[i]).name == n.name
                        &&& r.nodes@[i].host == n.host
                        &&& r.nodes@[i].port == n.port
                        &&& r.nodes@[i].role == n.role
                        &&& r.nodes@[i].version == n.version
                        &&& r.nodes@[i].network == (match n.network {
                                Some(nw) => nw,
                                None => file_config.global.network,
                            })
                    }
            }),
    {
        let cli_node_specified = args.prom_host.is_some() || args.prom_port.is_some();
        let nodes: Vec<NodeRuntimeConfig> = if cli_node_specified || file_config.nodes.len() == 0 {
            let name = match args.node_name {
                Some(n) => n,
                None => {
                    let mut s = String::new();
                    s.append("Cardano Node");
                    proof {
                        assert(s@ =~= "Cardano Node"@);
                    }
                    s
                },
            };
            let host = match args.prom_host {
                Some(h) => h,
                None => {
                    let mut s = String::new();
                    s.append("127.0.0.1");
                    proof {
                        assert(s@ =~= "127.0.0.1"@);
                    }
                    s
                },
            };
            let port = match args.prom_port {
                Some(p) => p,
                None => 12798,
            };
            let network = match args.network {
                Some(n) => n,
                None => file_config.global.network,
            };
            let mut v: Vec<NodeRuntimeConfig> = Vec::new();
            v.push(NodeRuntimeConfig {
                name,
                host,
                port,
                role: NodeRole::Relay,
                network,
                version: None,
            });
            v
        } else {
            let mut v: Vec<NodeRuntimeConfig> = Vec::new();
            let n = file_config.nodes.len();
            let mut k: usize = 0;
            let FileConfig { global, nodes: file_nodes } = file_config;
            while k < n
                invariant
                    0 <= k <= n,
                    n == file_nodes@.len(),
                    global == file_config.global,
                    file_nodes == file_config.nodes,
                    v@.len() == k,
                    forall|i: int| 0 <= i < k ==> {
                        let fnode = file_nodes@[i];
                        &&& (#[trigger] v@[i]).name == fnode.name
                        &&& v@[i].host == fnode.host
                        &&& v@[i].port == fnode.port
                        &&& v@[i].role == fnode.role
                        &&& v@[i].version == fnode.version
                        &&& v@[i].network == (match fnode.network {
                                Some(nw) => nw,
                                None => global.network,
                            })
                    },
                decreases n - k,
            {
                let fnode = &file_nodes[k];
                let network = match &fnode.network {
                    Some(nw) => nw.clone(),
                    None => global.network.clone(),
                };
                v.push(NodeRuntimeConfig {
                    name: fnode.name.clone(),
                    host: fnode.host.clone(),
                    port: fnode.port,
                    role: fnode.role,
                    network,
                    version: match &fnode.version {
                        Some(ver) => Some(ver.clone()),
                        None => None,
                    },
                });
                k = k + 1;
            }
            v
        };
        AppConfig {
            nodes,
            timeout_secs: args.prom_timeout_secs,
            refresh_interval_secs: args.refresh_interval_secs,
            history_length: args.history_length,
            epoch_length: args.epoch_length,
            export_path: args.export,
        }
    }

    /// Whether more than one node is monitored.
    pub fn is_multi_node(&self) -> (r: bool)
        ensures
            r == (self.nodes@.len() > 1),
    {
        self.nodes.len() > 1
    }
}

/// Per-node configuration in the form the session works with.
#[derive(Debug, Clone)]
pub struct Config {
    /// Display name.
    pub node_name: String,
    /// Network the node runs on.
    pub network: String,
    /// Metrics endpoint host.
    pub prom_host: String,
    /// Metrics endpoint port.
    pub prom_port: u16,
    /// Request timeout in seconds.
    pub prom_timeout_secs: u64,
    /// Refresh interval in seconds.
    pub refresh_interval_secs: u64,
    /// Sample capacity of each metric history ring.
    pub history_length: usize,
    /// Epoch length in slots.
    pub epoch_length: u64,
    /// Node software version, when known.
    pub version: Option<String>,
}

impl Config {
    /// Combine a node's runtime configuration with the global settings.
    pub fn from_node(node: &NodeRuntimeConfig, app_config: &AppConfig) -> (r: Self)
        ensures
            r.node_name == node.name,
            r.network == node.network,
            r.prom_host == node.host,
            r.prom_port == node.port,
            r.prom_timeout_secs == app_config.timeout_secs,
            r.refresh_interval_secs == app_config.refresh_interval_secs,
            r.history_length == app_config.history_length,
            r.epoch_length == app_config.epoch_length,
            r.version == node.version,
    {
        Config {
            node_name: node.name.clone(),
            network: node.network.clone(),
            prom_host: node.host.clone(),
            prom_port: node.port,
            prom_timeout_secs: app_config.timeout_secs,
            refresh_interval_secs: app_config.refresh_interval_secs,
            history_length: app_config.history_length,
            epoch_length: app_config.epoch_length,
            version: match &node.version {
                Some(v) => Some(v.clone()),
                None => None,
            },
        }
    }

    /// The request timeout in seconds.
    pub fn prom_timeout(&self) -> (r: u64)
        ensures
            r == self.prom_timeout_secs,
    {
        self.prom_timeout_secs
    }

    /// The refresh interval in seconds.
    pub fn refresh_interval(&self) -> (r: u64)
        ensures
            r == self.refresh_interval_secs,
    {
        self.refresh_interval_secs
    }

    /// The full metrics endpoint of this node.
    pub fn metrics_url(&self) -> (r: String)
        ensures
            r@ == spec_metrics_url(self.prom_host@, self.prom_port),
    {
        build_metrics_url(self.prom_host.as_str(), self.prom_port)
    }
}

impl Default for Config {
    /// A local single-node default.
    fn default() -> (r: Self)
        ensures
            r.node_name@ == "Cardano Node"@,
            r.network@ == "mainnet"@,
            r.prom_host@ == "127.0.0.1"@,
            r.prom_port == 12798,
            r.prom_timeout_secs == 3,
            r.refresh_interval_secs == 2,
            r.history_length == 60,
            r.epoch_length == 432000,
            r.version is None,
    {
        let mut node_name = String::new();
        node_name.append("Cardano Node");
        let mut network = String::new();
        network.append("mainnet");
        let mut prom_host = String::new();
        prom_host.append("127.0.0.1");
        proof {
            assert(node_name@ =~= "Cardano Node"@);
            assert(network@ =~= "mainnet"@);
            assert(prom_host@ =~= "127.0.0.1"@);
        }
        Config {
            node_name,
            network,
            prom_host,
            prom_port: 12798,
            prom_timeout_secs: 3,
            refresh_interval_secs: 2,
            history_length: 60,
            epoch_length: 432000,
            version: None,
        }
    }
}

} // verus!
