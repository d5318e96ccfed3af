[package]
name = "phi"
version = "0.1.0"
edition = "2021"
publish = false

[dependencies]
base64 = "=0.22.1"
fastrand = "=2.5.0"
httpdate = "=1.0.3"
serde = { version = "1", features = ["derive"] }
serde_json = "1"
serde_yaml_ng = "=0.10.0"
tokio = { version = "=1.54.1", features = ["fs", "rt", "sync", "macros"] }
