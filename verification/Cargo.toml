[package]
name = "google_photos_fix_metadata"
version = "0.1.0"
edition = "2021"
publish = false

[dependencies]
chrono = { version = "0.4", default-features = false, features = ["std"] }
clap = "4"
filetime = "0.2"
rand = "0.8"
serde_json = "1"
walkdir = "2"

[dev-dependencies]
regex = "1"
