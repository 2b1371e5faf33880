[package]
name = "mempool_tracker"
version = "0.1.0"
edition = "2021"
publish = false

[dependencies]
anyhow = "=1.0.104"
async-channel = "=2.5.0"
bitcoin = "=0.32.102"
bitcoin_hashes = "=1.2.0"
bitcoincore-zmq = { version = "=1.5.4", features = ["async"] }
bitcoind-async-client = "=0.15.1"
clap = { version = "=4.6.7", features = ["derive"] }
env_logger = "=0.11.11"
futures-util = "=0.3.34"
hex = "=0.4.3"
log = "=0.4.34"
r2d2 = "=0.8.10"
r2d2_sqlite = "=0.35.0"
rusqlite = { version = "=0.40.2", features = ["bundled"] }
tokio = { version = "=1.53.2", features = ["macros", "rt-multi-thread", "signal", "sync", "time"] }
