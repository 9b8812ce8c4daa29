[package]
name = "gpt2_rs"
version = "0.1.0"
edition = "2021"
publish = false

[dependencies]
memmap2 = "*"
safetensors = "*"
serde = { version = "1", features = ["derive"] }
serde_json = "1"
tokenizers = "*"
