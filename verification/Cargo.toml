[package]
name = "jintemplify"
version = "0.1.0"
edition = "2021"
publish = false

[dependencies]
serde = { version = "=1.0.229", features = ["derive"] }
serde_json = "=1.0.151"
serde_yaml = "=0.9.34"
toml = "=0.8.23"
tera = "=1.20.1"
clap = "=4.6.7"
wasmtime = "=35.0.0"
anyhow = "=1.0.104"
