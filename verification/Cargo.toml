[package]
name = "trx_core"
version = "0.1.0"
edition = "2021"
publish = false

[dependencies]
automerge = "*"
base32 = "*"
chrono = "*"
petgraph = "*"
serde = { version = "*", features = ["derive"] }
serde_json = "*"
sha2 = "*"
toml = "*"
uuid = { version = "*", features = ["v4"] }
