[package]
name = "tentacle"
version = "0.1.0"
edition = "2021"
publish = false

[dependencies]
regex = "1"
grok = "*"
chrono = "0.4"
chrono-tz = "*"
bytes = "1"
flate2 = "1"
serde_json = { version = "1", features = ["preserve_order"] }
serde = { version = "1", features = ["derive"] }
actix-web = { version = "4", default-features = false }
futures = "0.3"
tokio-util = { version = "0.7", features = ["codec"] }
config = { version = "0.13", default-features = false, features = ["yaml"] }
clap = "2"
log = "0.4"
env_logger = "*"
