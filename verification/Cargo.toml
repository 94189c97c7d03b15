[package]
name = "pathfuzz"
version = "0.1.0"
edition = "2021"
publish = false

[dependencies]
base64 = "0.22"
serde = { version = "1", features = ["derive"] }
serde_json = "1"
serde_yaml = "0.9"
rand = "0.8"
log = "0.4"
env_logger = "0.11"
libafl = { version = "0.15", default-features = false, features = ["std", "derive"] }
libafl_bolts = { version = "0.15", default-features = false, features = ["std", "derive"] }
reqwest = { version = "0.12", default-features = false, features = ["blocking", "json", "rustls-tls"] }
