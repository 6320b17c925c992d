[package]
name = "nazgul"
version = "0.1.0"
edition = "2021"
publish = false

[dependencies]
anyhow = "1"
oneshot = "0.1"
serde = { version = "1", features = ["derive"] }
serde_json = "1"
