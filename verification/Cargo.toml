[package]
name = "photo_backup"
version = "0.1.0"
edition = "2021"
publish = false

[dependencies]
anyhow = "1"
bincode = "2"
chrono = "0.4"
hostname = "0.4"
notify = "*"
rand = "0.9"
serde = { version = "1", features = ["derive"] }
serde_json = "1"
