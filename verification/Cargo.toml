[package]
name = "blitz"
version = "0.1.0"
edition = "2021"
publish = false

[dependencies]
rand = "0.8"
bson = "2"
dashmap = "5"
flume = "0.11"
tokio = { version = "1", features = ["rt-multi-thread", "sync", "time", "macros", "io-util", "net"] }
tokio-stream = "0.1"
prost = "0.12"
tonic = "0.10"
anyhow = "1"
