[package]
name = "quic_engine"
version = "0.1.0"
edition = "2021"
publish = false

[dependencies]
bytes = "1"
rand = "0.8"
futures-util = "0.3"
tokio = { version = "1", features = ["rt", "rt-multi-thread", "time", "net"] }
tracing = "0.1"
tracing-futures = "0.2"
tracing-subscriber = { version = "0.3", features = ["env-filter", "fmt"] }
rcgen = "0.8"
rustls = "0.19"
