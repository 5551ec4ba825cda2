[package]
name = "parse_tcp"
version = "0.1.0"
edition = "2021"
publish = false

[dependencies]
uuid = { version = "1", features = ["serde", "v4"] }
etherparse = "=0.13.0"
pcap-parser = "0.16"
clap = { version = "4", features = ["derive"] }
eyre = "0.6"
color-eyre = "0.6"
serde = { version = "1", features = ["derive"] }
serde_json = "1"
tracing = "0.1"
tracing-error = "0.2"
tracing-subscriber = { version = "0.3", features = ["env-filter"] }
libc = "0.2"
parking_lot = "0.12"
crossbeam-channel = "0.5"
