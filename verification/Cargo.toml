[package]
name = "shinkansen"
version = "0.1.0"
edition = "2021"
publish = false

[dependencies]
serde_json = "1"
serde_yaml = "0.9"
toml = "0.8"
minijinja = "2"
clap = { version = "4", features = ["derive"] }
clap_complete = "4"
walkdir = "2"
