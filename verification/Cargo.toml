[package]
name = "market_connectors"
version = "0.1.0"
edition = "2021"
publish = false

[dependencies]
libctp-sys = "=0.1.4"
serde = { version = "=1.0.229", features = ["derive"] }
ureq = { version = "=2.12.1", features = ["json"] }
