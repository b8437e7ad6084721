//! Core engine of a terminal monitor for Cardano-style blockchain nodes:
//! metrics ingestion, derived-metric computation, in-memory and on-disk
//! time-series history, and cooldown-gated operator alerts.

pub mod alerts;
pub mod config;
pub mod dates;
pub mod geoip;
pub mod history;
pub mod metrics;
pub mod peers;
pub mod rawmap;
pub mod sockets;
pub mod status;
pub mod storage;
pub mod text;
pub mod themes;
pub mod value;

