[package]
name = "relos"
version = "0.1.0"
edition = "2021"
publish = false

[dependencies]
bincode = "1"
hex = "0.4"
thiserror = "2"
tokio = { version = "1", features = ["full"] }
tonic = { version = "0.12", default-features = false }
tracing = "0.1"
tracing-subscriber = "0.3"
