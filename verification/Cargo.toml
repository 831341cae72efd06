[package]
name = "raft_broker"
version = "0.1.0"
edition = "2021"
publish = false

[dependencies]
raft = "0.7"
protobuf = "2"
slog = "2"
slog-async = "2"
slog-term = "2"
nix = { version = "0.29", features = ["socket"] }
clap = { version = "4", features = ["derive"] }
bincode = "1"
serde = { version = "1", features = ["derive"] }
openraft = "0.9"
