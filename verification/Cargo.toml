[package]
name = "smart_tree"
version = "0.3.0"
edition = "2021"
publish = false

[dependencies]
anyhow = "*"
clap = { version = "*", features = ["derive"] }
colored = "*"
env_logger = "*"
glob = "*"
log = "*"
