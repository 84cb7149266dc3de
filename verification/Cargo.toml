[package]
name = "basis"
version = "0.1.0"
edition = "2021"
publish = false

[dependencies]
anyhow = "1"
clap = { version = "4", features = ["derive"] }
colored = "2"
regex = "1"
semver = "1"
serde = { version = "1", features = ["derive"] }
serde_yaml = "0.9"
toml_edit = "0.22"
