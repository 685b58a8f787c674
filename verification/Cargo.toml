[package]
name = "dracon_system"
version = "0.1.0"
edition = "2021"
publish = false

[dependencies]
anyhow = "1"
comfy-table = "*"
dirs = "*"
serde = { version = "1", features = ["derive"] }
serde_json = "1"
walkdir = "2"
