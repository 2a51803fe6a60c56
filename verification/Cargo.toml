[package]
name = "badgemagic"
version = "0.1.0"
edition = "2021"
publish = false

[dependencies]
anyhow = "1"
base64 = "0.22"
btleplug = "0.11"
clap = { version = "4", features = ["derive"] }
embedded-graphics = "0.8"
hidapi = "2"
serde = { version = "1", features = ["derive"] }
serde_json = "1"
time = "0.3"
tokio = { version = "1", features = ["rt", "time"] }
toml = "0.8"
uuid = "1"
