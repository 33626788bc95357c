[package]
name = "eggplan"
version = "0.1.0"
edition = "2021"
publish = false

[dependencies]
serde = { version = "1", features = ["derive"] }
serde_json = "1"
sha2 = "0.10"
uuid = { version = "1", features = ["v4"] }
thiserror = "2"
toml = "0.8"
fs2 = "0.4"
tempfile = "3"
git2 = { version = "0.19", default-features = false }
