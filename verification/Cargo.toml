[package]
name = "replicated_kv"
version = "0.1.0"
edition = "2021"
publish = false

[dependencies]
tokio = { version = "*", features = ["rt-multi-thread", "net", "time", "macros", "sync", "io-util"] }
clap = { version = "*", features = ["derive"] }
log = "*"
simple_logger = "*"
bytes = "*"
