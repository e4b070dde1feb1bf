[package]
name = "mcs_binary"
version = "0.1.0"
edition = "2021"
publish = false

[dependencies]
base64 = "*"
ed25519-dalek = { version = "*", features = ["rand_core"] }
serde_json = "*"
clap = "*"
rand = "0.8"
tokio = { version = "*", features = ["rt-multi-thread", "macros", "net", "sync", "time"] }
tokio-tungstenite = "*"
futures = "*"
