[package]
name = "klartext"
version = "0.1.0"
edition = "2021"
publish = false

[dependencies]
async-trait = "0.1"
flate2 = "1"
if-addrs = "*"
rusqlite = { version = "*", features = ["bundled"] }
thiserror = "*"
tokio = { version = "1", features = ["io-util", "macros", "net", "rt", "sync", "time"] }
tracing = "0.1"
