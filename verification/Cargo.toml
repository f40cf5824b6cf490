[package]
name = "cailoxo"
version = "0.1.2"
edition = "2021"
publish = false

[dependencies]
anyhow = "*"
clap = { version = "*", features = ["derive"] }
serde = { version = "*", features = ["derive"] }
thiserror = "*"
toml = "*"
