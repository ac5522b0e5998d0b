[package]
name = "ohiro_wallet"
version = "0.1.0"
edition = "2021"
publish = false

[dependencies]
askama = "*"
axum = "*"
base64 = "*"
color-eyre = "*"
dotenvy = "*"
hmac = "*"
password-auth = "*"
serde = { version = "*", features = ["derive"] }
serde_json = "*"
sha2 = "*"
thiserror = "*"
time = "*"
tokio = { version = "*", features = ["macros", "rt-multi-thread", "net"] }
tracing = "*"
tracing-subscriber = "*"
