//! Verified core of a TCP/UDP relay: configuration model and validation, the
//! TOML writer, statistics counters and their Prometheus rendering, the
//! per-destination transform pipeline, the token bucket, and the decisions
//! the relay engine takes on hot reload.
pub mod text;
pub mod error;
pub mod config;
pub mod stats;
pub mod transforms;
pub mod relay;
pub mod rate_limiter;
pub mod prefs;
pub mod cli;
pub mod commands;
