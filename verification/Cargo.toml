[package]
name = "ingst"
version = "0.2.0"
edition = "2021"
publish = false

[dependencies]
sha2 = "0.10"
hex = "0.4"
base64 = "0.22"
serde_json = "1"
chrono = "0.4"
serde = { version = "1", features = ["derive"] }
walkdir = "2"
kamadak-exif = "0.5"
dirs = "5"
tokio = { version = "1", features = ["rt-multi-thread", "sync", "time"] }
log = "0.4"
image = { version = "0.25", default-features = false, features = ["jpeg", "png"] }
