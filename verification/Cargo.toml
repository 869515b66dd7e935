[package]
name = "vaporwm"
version = "0.1.0"
edition = "2021"
publish = false

[dependencies]
x11rb = "*"
nix = { version = "*", features = ["poll", "process"] }
serde = { version = "*", features = ["derive"] }
serde_json = "*"
