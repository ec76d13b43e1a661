[package]
name = "kiwix_catalog"
version = "0.1.0"
edition = "2021"
publish = false

[dependencies]
once_cell = "1"
regex = "1"
reqwest = { version = "0.11", features = ["blocking"] }
serde = { version = "1", features = ["derive"] }
serde_json = "1"
