[package]
name = "rbc"
version = "0.1.0"
edition = "2021"
publish = false

[dependencies]
reed_solomon_rs = "=0.1.2"
sha2 = "=0.10.9"
hmac = "=0.12.1"
bincode = "=1.3.3"
serde = { version = "=1.0.229", features = ["derive"] }
tokio = { version = "=1.54.1", features = ["rt-multi-thread", "macros", "net", "sync", "time", "io-util"] }
anyhow = "=1.0.104"
log = "=0.4.34"
clap = "=2.34.0"
fnv = "=1.0.7"
signal-hook = "=0.3.18"
simple_logger = "=5.2.0"
