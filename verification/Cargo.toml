[package]
name = "forge"
version = "0.1.0"
edition = "2021"
publish = false

[dependencies]
anyhow = "=1.0.104"
mlua = { version = "=0.10.5", features = ["lua54", "vendored"] }
regex = "=1.13.1"
serde = { version = "=1.0.229", features = ["derive"] }
serde_json = "=1.0.154"
sha2 = "=0.10.9"
tempfile = "=3.27.0"
time = { version = "=0.3.55", features = ["formatting"] }
toml = "=0.8.23"
