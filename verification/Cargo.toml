[package]
name = "tiny-metal-llm"
version = "0.1.0"
edition = "2021"
publish = false

[dependencies]
clap = { version = "4", features = ["derive"] }
half = "2"
rand = "0.8"
safetensors = "*"
serde = { version = "1", features = ["derive"] }
serde_json = "1"
