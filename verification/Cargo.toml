[package]
name = "open_live_writer"
version = "0.1.0"
edition = "2021"
publish = false

[dependencies]
anyhow = "1"
encoding_rs = "0.8"
futures = "0.3"
markdown = "1"
reqwest = { version = "0.12", default-features = false, features = ["blocking"] }
rust-embed = "8"
serde = { version = "1", features = ["derive"] }
serde_json = "1"
tree-sitter-md = "*"
