[package]
name = "brest"
version = "0.1.0"
edition = "2021"
publish = false

[dependencies]
axum = "*"
schemars = "*"
serde = { version = "*", features = ["derive"] }
serde_json = "*"
