[package]
name = "mempool"
version = "0.1.0"
edition = "2021"
publish = false

[dependencies]
chrono = { version = "0.4", default-features = false, features = ["clock"] }
lru-cache = "0.1"
ttl_cache = "0.5"
tokio = { version = "1", features = ["rt-multi-thread", "net", "time"] }
tonic = "*"
