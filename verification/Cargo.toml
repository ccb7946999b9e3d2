[package]
name = "anchor_network"
version = "0.1.0"
edition = "2021"
publish = false

[dependencies]
libp2p-identity = { version = "*", features = ["ed25519", "secp256k1", "rand"] }
tokio = { version = "*", features = ["rt", "time", "macros"] }
futures = "*"
delay_map = "*"

[dev-dependencies]
serde_json = "*"
