[package]
name = "mirage"
version = "0.1.0"
edition = "2021"
publish = false

[dependencies]
aes = "0.8"
aes-gcm = "0.10"
colored = "2"
env_logger = "0.10"
lazy_static = "1"
log = "0.4"
rand = "0.8"
rand_distr = "0.4"
rayon = "1"
rsa = "0.9"
serde = { version = "1", features = ["derive"] }
serde_json = "1"
sys-info = "0.9"
tokio = { version = "1", features = ["rt-multi-thread", "macros", "fs", "io-util"] }
