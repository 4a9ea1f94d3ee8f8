[package]
name = "ya"
version = "0.4.0"
edition = "2021"
publish = false

[dependencies]
annotate-snippets = "0.12"
serde = { version = "1", features = ["derive"] }
