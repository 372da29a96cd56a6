[package]
name = "nexthop"
version = "0.1.0"
edition = "2021"
publish = false

[dependencies]
serde = { version = "1", features = ["derive"] }
serde_json = "1"
toml = "0.8"
tokio = { version = "1", features = ["full"] }
bytes = "1"
arc-swap = "1"
futures = "0.3"
notify = "*"
socket2 = { version = "0.5", features = ["all"] }
if-addrs = "*"
clap = { version = "4", features = ["derive"] }
tracing = "0.1"
tracing-subscriber = { version = "0.3", features = ["env-filter", "json"] }
thiserror = "*"
