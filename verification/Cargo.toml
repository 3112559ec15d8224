[package]
name = "cac_client"
version = "0.1.0"
edition = "2021"
publish = false

[dependencies]
serde_json = "*"
chrono = "*"
jsonschema = { version = "*", default-features = false }
reqwest = { version = "*", default-features = false, features = ["blocking"] }
