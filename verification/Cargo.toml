[package]
name = "lm_node"
version = "0.1.0"
edition = "2021"
publish = false

[dependencies]
libp2p = { version = "*", default-features = false }
serde = { version = "1", features = ["derive"] }
serde_json = "1"
rusqlite = { version = "*", features = ["bundled"] }
