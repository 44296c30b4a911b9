[package]
name = "rolldown_core"
version = "0.1.0"
edition = "2021"
publish = false

[dependencies]
oxc = "=0.143.0"
oxc_sourcemap = "=9.0.0"
string_wizard = "=1.2.16"
serde = { version = "=1.0.229", features = ["derive"] }
serde_json = "=1.0.154"
rustc-hash = "=2.1.3"
anyhow = "=1.0.104"
