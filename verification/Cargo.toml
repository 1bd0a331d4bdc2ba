[package]
name = "rdith"
version = "0.1.0"
edition = "2021"
publish = false

[dependencies]
clap = { version = "=4.6.7", features = ["derive"] }
image = "=0.25.10"
rand = "=0.9.5"
