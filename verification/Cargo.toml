[package]
name = "navcore"
version = "0.1.0"
edition = "2021"
publish = false

[dependencies]
rstar = "0.12"
serde = { version = "1", features = ["derive"] }
serde_json = "1"
thiserror = "2"
uniffi = { version = "0.28", default-features = false }
