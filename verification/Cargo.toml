[package]
name = "pea2pea"
version = "0.1.0"
edition = "2021"
publish = false

[dependencies]
fxhash = "0.2"
tokio = { version = "1", features = ["rt-multi-thread", "net", "sync", "time", "macros", "io-util"] }
tokio-util = { version = "0.7", features = ["codec"] }
bytes = "1"
futures-util = { version = "0.3", features = ["sink"] }
parking_lot = "0.12"
tracing = "0.1"
