[package]
name = "rustcraft"
version = "0.1.0"
edition = "2021"
publish = false

[dependencies]
serde = { version = "=1.0.229", features = ["derive"] }
postcard = { version = "=1.1.3", features = ["alloc"] }
ron = "=0.12.3"
tempfile = "=3.27.0"
bevy = { version = "=0.19.1", default-features = false }
