[package]
name = "reqspec"
version = "0.1.0"
edition = "2021"
publish = false

[dependencies]
toml = { version = "=1.1.7", features = ["preserve_order"] }
configparser = "=3.3.0"
regex = "=1.13.1"
