[package]
name = "secure_p2p_msg"
version = "0.1.0"
edition = "2021"
publish = false

[dependencies]
sled = "0.34"
sodiumoxide = "0.2"
bincode = "1"
hex = "0.4"
uuid = { version = "1", features = ["v4", "serde"] }
ed25519-dalek = "2"
argon2 = "0.5"
blake2 = "0.10"
rand = "0.8"
serde = { version = "1", features = ["derive"] }
toml = "0.8"
dirs = "5"
once_cell = "1"
thiserror = "1"
log = "0.4"
pretty_env_logger = "0.5"
clap = { version = "4", features = ["derive"] }
tokio = { version = "1", features = ["full"] }
futures = "0.3"
async-trait = "0.1"
libp2p = { version = "0.53", features = ["tcp", "noise", "yamux", "request-response", "mdns", "ping", "tokio", "macros"] }

[dev-dependencies]
tempfile = "3"
