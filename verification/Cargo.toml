[package]
name = "compact_track"
version = "0.1.0"
edition = "2021"
publish = false

[dependencies]
chrono = "*"
geo = "*"
serde = { version = "*", features = ["derive"] }
