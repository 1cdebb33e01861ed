[package]
name = "qcode"
version = "0.1.0"
edition = "2021"
publish = false

[dependencies]
inventory = "=0.3.25"
rustc-hash = "=2.1.3"
serde = { version = "=1.0.229", features = ["derive"] }
smallvec = "=1.16.4"
