[package]
name = "distributed_compute_node"
version = "0.1.0"
edition = "2021"
publish = false

[dependencies]
reed-solomon-erasure = "=6.0.0"
tokio = { version = "=1.53.2", features = ["rt", "sync", "time", "macros", "fs"] }
serde = { version = "=1.0.229", features = ["derive"] }
serde_json = "=1.0.151"
rand = "=0.8.8"
anyhow = "=1.0.104"
