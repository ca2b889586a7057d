[package]
name = "mqtt2timescale"
version = "0.1.0"
edition = "2021"
publish = false

[dependencies]
anyhow = "*"
bytes = "*"
clap = { version = "*", features = ["derive", "env"] }
env_logger = "*"
log = "*"
postgres = "*"
rumqttc = "*"

[dev-dependencies]
chrono = "*"
serde_json = "*"
