[package]
name = "prompt_encoding"
version = "0.1.0"
edition = "2021"
publish = false

[dependencies]
serde_json = { version = "=1.0.154", features = ["preserve_order"] }
tokenizers = { version = "=0.23.2", default-features = false, features = ["fancy-regex"] }
tracing = "0.1"
