[package]
name = "apple_roulette"
version = "0.1.0"
edition = "2021"
publish = false

[dependencies]
clap = { version = "*", features = ["derive"] }
csv = "*"
curl = "*"
env_logger = "*"
ipnetwork = "*"
log = "*"
pnet_datalink = "*"
