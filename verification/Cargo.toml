[package]
name = "ipfs_client"
version = "0.1.0"
edition = "2021"
publish = false

[dependencies]
multiaddr = "*"
serde = { version = "1", features = ["derive"] }
serde_json = "1"
futures = "0.1"
tokio-core = "0.1"
tokio-curl = "0.1"
curl = "0.4"
