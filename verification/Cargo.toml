[package]
name = "bit"
version = "0.1.0"
edition = "2021"
publish = false

[dependencies]
chrono = { version = "=0.4.45", features = ["serde"] }
bitvec = "=1.1.1"
thousands = "=0.2.0"
uuid = { version = "=1.29.0", features = ["v4", "serde"] }
serde = { version = "=1.0.229", features = ["derive"] }
serde_json = "=1.0.154"
toml = "=1.1.8"
bincode = "=1.3.3"
anyhow = "=1.0.104"
cli-table = "=0.4.9"
serde_yaml = "0.9"
