[package]
name = "poe_screenshot"
version = "0.1.0"
edition = "2021"
publish = false

[dependencies]
anyhow = "=1.0.104"
chrono = { version = "=0.4.45", default-features = false, features = ["clock"] }
dirs-next = "=2.0.0"
screenshots = { version = "=0.7.3", default-features = false }
