[package]
name = "architect"
version = "0.1.0"
edition = "2021"
publish = false

[dependencies]
uuid = { version = "=1.29.0", features = ["v4"] }
serde = { version = "=1.0.229", features = ["derive"] }
bincode = "=1.3.3"
toml = "=0.8.23"
data-encoding = "=2.11.1"
serde_json = "=1.0.154"
rcgen = "0.13"
