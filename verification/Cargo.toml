[package]
name = "kata"
version = "0.1.0"
edition = "2021"
publish = false

[dependencies]
ariadne = "=0.6.0"
clap = { version = "=4.6.7", features = ["derive"] }
env_logger = "=0.11.11"
