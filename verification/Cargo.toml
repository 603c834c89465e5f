[package]
name = "ruffd"
version = "0.1.0"
edition = "2021"
publish = false

[dependencies]
lsp-types = "0.93"
serde = { version = "1", features = ["derive"] }
serde_json = "1"
clap = { version = "4", features = ["derive"] }
