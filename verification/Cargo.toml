[package]
name = "kadcast"
version = "0.7.0"
edition = "2021"
publish = false

[dependencies]
arrayvec = "0.7"
blake2 = "0.10"
hex = "0.4"
humantime-serde = "1"
itertools = "0.13"
rand = "0.8"
raptorq = "2.0"
semver = "1"
serde = { version = "1", features = ["derive"] }
serde_derive = "1"
socket2 = "0.5"
tokio = { version = "1", features = ["rt-multi-thread", "net", "sync", "time", "macros"] }
tracing = "0.1"
