[package]
name = "jsonschema"
version = "0.1.0"
edition = "2021"
publish = false

[dependencies]
ahash = "0.8"
clap = { version = "4", features = ["derive"] }
fancy-regex = "*"
percent-encoding = "2"
serde_json = "1"
