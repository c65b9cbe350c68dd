[package]
name = "lane"
version = "0.1.0"
edition = "2021"
publish = false

[dependencies]
anyhow = "1"
pico-args = "0.5"
serde = { version = "1", features = ["derive"] }
serde_json = "1"
tempfile = "3"
walkdir = "2"
