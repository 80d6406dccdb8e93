[package]
name = "openapi31to30"
version = "0.1.0"
edition = "2021"
publish = false

[dependencies]
color-eyre = "0.6"
serde = { version = "1", features = ["derive"] }
serde_yaml = "0.9"

[dev-dependencies]
progenitor-impl = "*"
