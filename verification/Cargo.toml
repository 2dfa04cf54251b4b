[package]
name = "clomonitor_registrar"
version = "0.1.0"
edition = "2021"
publish = false

[dependencies]
sha2 = "0.10"
hex = "0.4"
serde = { version = "1", features = ["derive"] }
serde_yaml = "0.9"
reqwest = { version = "0.12", default-features = false }
tokio = { version = "1", features = ["rt-multi-thread", "time", "macros"] }
futures = "0.3"
http = "1"
config = "0.14"
tracing = "0.1"
anyhow = "1"
askama = "0.12"
