[package]
name = "p2panda_spaces"
version = "0.1.0"
edition = "2021"
rust-version = "1.95"
publish = false

[dependencies]
p2panda-auth = "=0.5.2"
p2panda-encryption = { version = "=0.5.2", features = ["test_utils"] }
tokio = { version = "1", features = ["sync"] }
