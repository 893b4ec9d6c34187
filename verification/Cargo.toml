[package]
name = "minihttp"
version = "0.1.0"
edition = "2021"
publish = false

[dependencies]
memchr = "2"
tokio = { version = "1", features = ["full"] }
serde = { version = "1", features = ["derive"] }
serde_json = "1"
async-trait = "0.1"
