[package]
name = "dag_stitch"
version = "0.1.0"
edition = "2021"
publish = false

[dependencies]
petgraph = "*"
rustworkx-core = "*"
anyhow = "1"
chrono = "0.4"
env_logger = "*"
log = "0.4"
serde = { version = "1", features = ["derive"] }
tokio = { version = "1", features = ["rt-multi-thread", "macros", "time", "sync"] }
toml = "*"
kaspa-addresses = "*"
kaspa-consensus-core = "*"
