[package]
name = "fast_sync"
version = "0.1.0"
edition = "2021"
publish = false

[dependencies]
futures = "0.3"
log = "0.4"
prost = "0.12"
tokio = { version = "1", features = ["sync", "macros", "rt"] }
