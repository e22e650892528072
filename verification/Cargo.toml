[package]
name = "splat_settings"
version = "0.1.0"
edition = "2021"
publish = false

[dependencies]
bevy = { version = "=0.18.1", default-features = false, features = ["std", "serialize"] }
serde = { version = "1", features = ["derive"] }
