[package]
name = "dsc"
version = "0.1.0"
edition = "2021"
publish = false

[dependencies]
clap = { version = "=3.2.25", features = ["derive"] }
log = "=0.4.34"
reqwest = { version = "=0.11.27", default-features = false, features = ["blocking", "json", "multipart"] }
serde = { version = "=1.0.229", features = ["derive"] }
serde_json = "1"
sha2 = "0.10"
toml = "0.5"
