[package]
name = "tileworld"
version = "0.1.0"
edition = "2021"
publish = false

[dependencies]
crc32fast = "1"
serde = { version = "1", features = ["derive"] }
bevy = { version = "0.17", default-features = false, features = ["std", "bevy_asset", "bevy_log", "bevy_window", "bevy_sprite_render"] }
