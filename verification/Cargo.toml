[package]
name = "aiwm_core"
version = "0.1.0"
edition = "2021"
publish = false

[dependencies]
serde = { version = "1", features = ["derive"] }
serde_json = "1"
sha2 = "0.10"
sysinfo = "*"
time = { version = "0.3", features = ["formatting"] }
toml = "0.8"
