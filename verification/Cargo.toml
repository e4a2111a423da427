[package]
name = "yapchat"
version = "0.1.0"
edition = "2021"
publish = false

[dependencies]
rand = "0.8"
actix-web = "4"
actix-ws = "0.3"
actix-cors = "0.7"
tokio = { version = "1", features = ["sync", "rt", "macros"] }
serde = { version = "1", features = ["derive"] }
serde_json = "1"
futures-util = "0.3"
log = "0.4"
