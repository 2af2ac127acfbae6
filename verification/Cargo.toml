[package]
name = "shellops"
version = "0.1.0"
edition = "2021"
publish = false

[dependencies]
anyhow = "1"
chrono = "0.4"
clap = { version = "4", features = ["derive"] }
comfy-table = "7"
dialoguer = "0.11"
dotenvy = "0.15"
flate2 = "1"
indicatif = "0.17"
owo-colors = "4"
rustix = { version = "1", features = ["process"] }
semver = "1"
serde = { version = "1", features = ["derive"] }
serde_json = "1"
sha2 = "0.10"
tar = "0.4"
tempfile = "3"
toml = "0.9"
ureq = { version = "2", features = ["json"] }
