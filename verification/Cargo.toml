[package]
name = "cargo-notice"
version = "0.1.0"
edition = "2021"
publish = false

[dependencies]
anyhow = "1"
cargo_metadata = "*"
clap = { version = "4", features = ["derive"] }
colored = "*"
dialoguer = "*"
regex = "1"
serde = { version = "1", features = ["derive"] }
toml = "*"
