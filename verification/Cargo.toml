[package]
name = "pixelcoords_core"
version = "0.1.0"
edition = "2021"
publish = false

[dependencies]
serde = { version = "1", features = ["derive"] }
thiserror = "2"
fontdue = "0.9"

[dev-dependencies]
serde_json = "1"
