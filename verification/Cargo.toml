[package]
name = "marrow_run"
version = "0.1.0"
edition = "2021"
publish = false

[dependencies]
serde = "1"
serde_json = { version = "1", features = ["raw_value"] }
sha2 = "0.10"
