[package]
name = "freya"
version = "0.1.0"
edition = "2021"
publish = false

[dependencies]
rand = "*"
time = "*"
argon2 = "*"
tokio = { version = "*", features = ["full"] }
axum = "*"
tower-cookies = "*"
dotenvy = "*"
serde = { version = "*", features = ["derive"] }
serde_json = "*"
tokio-util = { version = "*", features = ["io"] }
