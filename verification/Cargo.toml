[package]
name = "blog_tools"
version = "0.1.0"
edition = "2021"
publish = false

[dependencies]
chrono = { version = "0.4", features = ["serde"] }
markdown = "1.0.0-alpha.1"
serde = { version = "1", features = ["derive"] }
serde_json = "1"
tl = "0.7"
walkdir = "2"
xml-rs = "0.8"
