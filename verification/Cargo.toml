[package]
name = "news_peer"
version = "0.1.0"
edition = "2021"
publish = false

[dependencies]
libp2p = { version = "*", features = ["gossipsub", "kad", "tokio", "noise", "tcp", "yamux", "macros"] }
log = "*"
once_cell = "*"
pretty_env_logger = "*"
serde = { version = "*", features = ["derive"] }
serde_json = "*"
tokio = { version = "*", features = ["full"] }
uuid = { version = "*", features = ["v4"] }
