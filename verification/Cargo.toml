[package]
name = "whatbubbles_core"
version = "0.1.0"
edition = "2021"
publish = false

[dependencies]
anyhow = "1"
crossbeam-channel = "0.5"
cxx = "1"
directories = "5"
flexi_logger = "0.29"
log = "0.4"
multi_log = "0.1"
parking_lot = "0.12"
pretty_env_logger = "0.5"
rand = "0.8"
rusqlite = { version = "0.32", features = ["bundled"] }
serde = { version = "1", features = ["derive"] }
serde_json = "1"
sha2 = "0.10"
tokio = { version = "1", features = ["rt-multi-thread", "sync", "macros"] }
uuid = { version = "1", features = ["v4"] }
