[package]
name = "chain_metrics"
version = "0.1.0"
edition = "2021"
publish = false

[dependencies]
chrono = "=0.4.45"
bitcoincore-rpc = "=0.19.0"
bitcoincore-rpc-json = "=0.19.0"
mysql = "=28.0.3"
warp = { version = "=0.4.3", features = ["server"] }
serde = { version = "=1.0.229", features = ["derive"] }
tokio = { version = "=1.53.2", features = ["macros", "rt-multi-thread"] }
