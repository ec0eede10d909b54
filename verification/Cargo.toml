[package]
name = "sentinelvault"
version = "0.1.0"
edition = "2021"
publish = false

[dependencies]
aes-gcm = "0.10"
argon2 = "0.5"
rand = "0.8"
chrono = "0.4"
serde = { version = "1", features = ["derive"] }
serde_json = "1"
ron = "0.8"
clap = { version = "4", features = ["derive"] }
inquire = "0.7"
dirs = "5"
qrcode = { version = "0.14", default-features = false }
anyhow = "1"
