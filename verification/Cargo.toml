[package]
name = "launcher"
version = "0.1.0"
edition = "2021"
publish = false

[dependencies]
evalexpr = "11"
fuzzy-matcher = "0.3"
serde = { version = "1", features = ["derive"] }
serde_json = "1"
toml = "0.8"
dirs = "5"
reqwest = { version = "0.12", default-features = false, features = ["blocking", "json", "rustls-tls"] }
gtk4 = "0.9"
gtk4-layer-shell = "0.4"
