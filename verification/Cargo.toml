[package]
name = "sov-sequencer"
version = "0.1.0"
edition = "2021"
publish = false

[dependencies]
uuid = { version = "=1.29.0", features = ["v7"] }
serde = { version = "=1.0.229", features = ["derive"] }
serde_json = "=1.0.154"
serde_with = { version = "3", features = ["base64"] }
anyhow = "=1.0.104"
thiserror = "=1.0.69"

[dev-dependencies]
borsh = "=1.8.1"
