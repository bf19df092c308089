[package]
name = "rbmstable_parser"
version = "0.1.0"
edition = "2021"
publish = false

[dependencies]
itertools = "0.12"
reqwest = { version = "0.11", features = ["blocking"] }
serde = { version = "1", features = ["derive"] }
serde_json = "1"
thiserror = "1"
