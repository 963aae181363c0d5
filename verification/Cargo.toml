[package]
name = "annex"
version = "0.1.0"
edition = "2021"
publish = false

[dependencies]
subtle = "2"
getrandom = "0.3"
qrcode = { version = "0.14", default-features = false }
png = "0.17"
serde = { version = "1", features = ["derive"] }
serde_json = "1"
