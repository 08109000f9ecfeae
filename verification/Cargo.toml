[package]
name = "stream_download"
version = "0.1.0"
edition = "2021"
publish = false

[dependencies]
rangemap = "1"
tokio = { version = "1", features = ["rt-multi-thread", "macros", "sync", "time"] }
futures = "0.3"
bytes = "1"
async-trait = "0.1"
parking_lot = "0.12"
reqwest = { version = "0.12", default-features = false, features = ["stream"] }
