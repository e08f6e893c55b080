[package]
name = "dvf_core"
version = "0.1.0"
edition = "2021"
publish = false

[dependencies]
eth2_hashing = "*"
hyper = { version = "0.14", default-features = false }
clap = "2"
dirs = "*"
env_logger = "*"
exit-future = "*"
futures = "*"
log = "*"
parking_lot = "*"
serde = "*"
serde_derive = "*"
tokio = { version = "1", features = ["full"] }
warp = "0.3"
bytes = "*"
