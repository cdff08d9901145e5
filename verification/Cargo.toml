[package]
name = "turing"
version = "0.1.0"
edition = "2021"
publish = false

[dependencies]
clap = "*"
colored = "*"
serde = { version = "*", features = ["derive"] }
serde_json = "*"
