[package]
name = "mpdf_core"
version = "0.1.0"
edition = "2021"
publish = false

[dependencies]
sha2 = "0.10"
unicode-normalization = "0.1"
serde = { version = "1", features = ["derive"] }
serde_json = "1"
image = { version = "0.25", default-features = false, features = ["png"] }
tempfile = "3"
thiserror = "2"
toml = "0.8"
rusqlite = { version = "*", features = ["bundled"] }
