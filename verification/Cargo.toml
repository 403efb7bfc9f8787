[package]
name = "noid_mobile"
version = "1.0.4"
edition = "2021"
publish = false

[dependencies]
anyhow = "1"
hex = "0.4"
jni = "0.21"
libp2p = { version = "0.56", default-features = false, features = ["gossipsub"] }
once_cell = "1"
serde = { version = "1", features = ["derive"] }
serde_json = "1"
tokio = { version = "1", features = ["sync", "rt-multi-thread", "time", "macros"] }
tracing = "0.1"
