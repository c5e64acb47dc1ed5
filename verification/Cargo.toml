[package]
name = "scenekit"
version = "0.1.0"
edition = "2021"
publish = false

[dependencies]
slotmap = "1"
bytemuck = "1"
serde = { version = "1", features = ["derive"] }
