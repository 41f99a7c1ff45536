[package]
name = "vexy_svgo_plugin_sdk"
version = "0.1.0"
edition = "2021"
publish = false

[dependencies]
anyhow = "1"
indexmap = "2"
lightningcss = "1.0.0-alpha.50"
lyon = "1"
nalgebra = "0.33"
once_cell = "1"
regex = "1"
serde = { version = "1", features = ["derive"] }
serde_json = "1"
