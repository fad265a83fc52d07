[package]
name = "dpc_node"
version = "0.1.0"
edition = "2021"
publish = false

[dependencies]
hex = "0.4"
tokio = { version = "1", features = ["rt-multi-thread", "macros", "sync", "time", "net", "io-util"] }
env_logger = "0.10"
