[package]
name = "metrics-dashboard"
version = "0.1.0"
edition = "2021"
publish = false

[dependencies]
async-trait = "*"
metrics = "*"
metrics-prometheus = "*"
metrics-util = "*"
parking_lot = "*"
poem = { version = "*", features = ["static-files"] }
prometheus = "*"
serde = { version = "*", features = ["derive"] }
sysinfo = "*"
