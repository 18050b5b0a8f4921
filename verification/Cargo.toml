[package]
name = "requestd"
version = "0.1.0"
edition = "2021"
publish = false

[dependencies]
chrono = "0.4"
crossbeam-channel = "0.5"
flate2 = "1"
libc = "0.2"
log = "0.4"
serde = { version = "1", features = ["derive"] }
serde_json = "1"
serde_yaml = "*"
socket2 = "*"
