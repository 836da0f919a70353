[package]
name = "quafu_worker"
version = "0.1.0"
edition = "2021"
publish = false

[dependencies]
serde_json = "1"
serde = { version = "1", features = ["derive"] }
reqwest = { version = "0.11", default-features = false, features = ["blocking", "json"] }
log = "0.4"
log4rs = "1"
dotenv = "0.15"
