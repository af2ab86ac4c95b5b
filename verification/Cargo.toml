[package]
name = "signed_relay"
version = "0.1.0"
edition = "2021"
publish = false

[dependencies]
crypto-hash = "0.3"
serde_urlencoded = "0.7"
serde_json = "1"
chrono = "0.4"
serde = { version = "1", features = ["derive"] }
actix-web = "4"
actix-cors = "0.7"
reqwest = { version = "0.12", default-features = false, features = ["json"] }
