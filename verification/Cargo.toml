[package]
name = "sootmix"
version = "0.1.0"
edition = "2021"
publish = false

[dependencies]
regex = "=1.13.1"
uuid = { version = "=1.29.0", features = ["v4", "serde"] }
serde = { version = "=1.0.229", features = ["derive"] }
serde_json = "=1.0.154"
toml = "=0.8.23"
directories = "=5.0.1"
thiserror = "=1.0.69"
parking_lot = "=0.12.5"
tempfile = "=3.27.0"
tracing = "=0.1.44"
flate2 = "=1.1.10"
tar = "=0.4.46"
reqwest = { version = "0.12", default-features = false, features = ["blocking", "rustls-tls"] }
