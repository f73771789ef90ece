[package]
name = "turnsrv"
version = "0.1.0"
edition = "2021"
publish = false

[dependencies]
turn = "=0.17.2"
ring = "=0.17.14"
log = "=0.4.34"
tokio = { version = "=1.54.1", features = ["full"] }
clap = { version = "=4.6.7", features = ["derive"] }
env_logger = "=0.11.11"

[dev-dependencies]
stun = "=0.17.2"
