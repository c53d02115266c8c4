[package]
name = "oxidexr"
version = "0.1.0"
edition = "2021"
publish = false

[dependencies]
dashmap = "*"
once_cell = "*"
openxr = { version = "*", default-features = false }
openxr-sys = "*"
serde = { version = "*", features = ["derive"] }
serde_json = "*"
