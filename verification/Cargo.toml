[package]
name = "economy_core"
version = "0.1.0"
edition = "2021"
publish = false

[dependencies]
axum = "*"
chrono = "*"
futures = "*"
parking_lot = "*"
postcard = { version = "*", features = ["use-std"] }
rand = "*"
rand_distr = "*"
reqwest = { version = "*", default-features = false }
rustc-hash = "*"
serde = { version = "*", features = ["derive"] }
serde_json = "*"
thiserror = "*"
tokio = { version = "*", features = ["rt-multi-thread", "macros", "sync", "signal", "time", "fs", "io-util", "net"] }
tower-http = { version = "*", features = ["cors", "timeout"] }
tracing = "*"
tracing-subscriber = "*"
