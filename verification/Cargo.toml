[package]
name = "vote_engine"
version = "0.1.0"
edition = "2021"
publish = false

[dependencies]
bincode = "1.3"
blsttc = "*"
serde = { version = "1", features = ["derive"] }

[dev-dependencies]
rand = "0.8"
