[package]
name = "deadcode"
version = "0.1.0"
edition = "2021"
publish = false

[dependencies]
regex = "=1.13.1"
similar = "=2.7.0"
clap = { version = "=4.6.7", features = ["derive"] }
toml = "=0.9.8"
