[package]
name = "zerostack"
version = "0.1.0"
edition = "2021"
publish = false

[dependencies]
regex = "=1.13.1"
dirs = "=5.0.1"
serde = { version = "=1.0.229", features = ["derive"] }
serde_json = "=1.0.154"
tokio = { version = "=1.54.1", features = ["process", "time", "rt", "fs", "macros"] }
chrono = "=0.4.45"
toml = "=0.8.23"
serde_yaml_ng = "*"
