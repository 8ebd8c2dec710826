[package]
name = "svoote"
version = "0.1.0"
edition = "2021"
publish = false

[dependencies]
accept-language = "3"
arrayvec = { version = "0.7", features = ["serde"] }
axum = { version = "0.7", features = ["ws"] }
axum-extra = { version = "0.9", features = ["cookie"] }
dotenv = "0.15"
env_logger = "0.11"
log = "0.4"
maud = { version = "0.26", features = ["axum"] }
md5 = "0.7"
rand = "0.8"
rust-i18n = "3"
serde = { version = "1", features = ["derive"] }
serde_json = "1"
smartstring = { version = "1", features = ["serde"] }
time = "0.3"
tokio = { version = "1", features = ["full"] }
uuid = { version = "1", features = ["v4"] }
