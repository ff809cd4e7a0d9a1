[package]
name = "net_replay_test"
version = "0.1.0"
edition = "2021"
publish = false

[dependencies]
chrono = "*"
clap = { version = "*", features = ["cargo"] }
gamedig = "*"
pcap = "*"
pnet_packet = "*"
serde = { version = "*", features = ["derive"] }
serde_json = "*"
