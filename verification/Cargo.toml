[package]
name = "anigo_core"
version = "0.1.0"
edition = "2021"
publish = false

[dependencies]
serde = { version = "1", features = ["derive"] }
serde_json = "1"
glam = { version = "*", features = ["serde", "bytemuck"] }
bytemuck = { version = "1", features = ["derive"] }
thiserror = "*"
