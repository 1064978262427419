[package]
name = "regbridge"
version = "0.1.0"
edition = "2021"
publish = false

[dependencies]
serde = { version = "1", features = ["derive"] }
serde_json = "1"
tungstenite = { version = "0.13", default-features = false }
probe-rs = "0.10"
log = "0.4"
