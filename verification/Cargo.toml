[package]
name = "rings_swarm"
version = "0.1.0"
edition = "2021"
publish = false

[dependencies]
anyhow = "1"
async-trait = "0.1"
bincode = "1"
bytes = { version = "1", features = ["serde"] }
clap = { version = "3", features = ["derive", "env"] }
dashmap = "5"
futures = "0.3"
hyper = { version = "0.14", features = ["server", "tcp", "http1"] }
lazy_static = "1"
rand = "0.8"
serde = { version = "1", features = ["derive"] }
serde_json = "1"
serde_yaml = "0.9"
tokio = { version = "1", features = ["macros", "rt-multi-thread", "signal", "sync", "time"] }
tracing = "0.1"
uuid = { version = "1", features = ["serde"] }
