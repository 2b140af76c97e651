[package]
name = "phoenix_rec"
version = "0.1.0"
edition = "2021"
publish = false

[dependencies]
bincode = "=1.3.3"
chrono = "=0.4.45"
lz4-compression = "=0.7.0"
serde = { version = "=1.0.229", features = ["derive"] }
whoami = "=1.6.1"
