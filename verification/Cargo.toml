[package]
name = "vdf_reader"
version = "0.1.0"
edition = "2021"
publish = false

[dependencies]
miette = "=7.6.0"
parse-display = "=0.11.0"
serde = { version = "=1.0.229", features = ["derive"] }
thiserror = "=2.0.21"
