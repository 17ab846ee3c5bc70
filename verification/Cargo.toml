[package]
name = "content"
version = "0.1.0"
edition = "2021"
publish = false

[dependencies]
url = "2"
data-url = "0.3"
serde = { version = "1", features = ["derive"] }
serde_json = "1"
keyboard-types = "0.7"
uuid = { version = "1", features = ["v4"] }
crossbeam-channel = "0.5"
log = "0.4"
