[package]
name = "piney"
version = "0.1.0"
edition = "2021"
publish = false

[dependencies]
axum = { version = "*", features = ["multipart"] }
chrono = "=0.4.45"
flate2 = "=1.1.10"
jsonwebtoken = { version = "=11.1.0", default-features = false, features = ["rust_crypto"] }
serde = { version = "*", features = ["derive"] }
serde_json = "=1.0.151"
sha2 = "=0.11.0"
tiktoken-rs = "=0.12.1"
tokio = { version = "*", features = ["full"] }
tokio-util = { version = "*", features = ["io", "io-util"] }

[dev-dependencies]
tar = "=0.4.46"
