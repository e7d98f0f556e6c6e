[package]
name = "rigger"
version = "0.1.0"
edition = "2021"
publish = false

[dependencies]
jiff = "0.2"
serde = { version = "1", features = ["derive"] }
serde_json = "1"
anyhow = "1"
toml = "0.8"
clap = { version = "4", features = ["derive"] }
directories = "6"
dunce = "1"
