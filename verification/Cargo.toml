[package]
name = "jsonlog"
version = "0.1.0"
edition = "2021"

[dependencies]
ryu = "1"
chrono = "0.4"

[dev-dependencies]
serde_json = "1"
