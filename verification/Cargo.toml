[package]
name = "hush"
version = "0.1.0"
edition = "2021"
publish = false

[dependencies]
anyhow = "1"
cpal = "0.15"
hound = "3"
parking_lot = "0.12"
ringbuf = "0.2"
serde = { version = "1", features = ["derive"] }
serde_json = "1"
