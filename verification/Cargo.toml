[package]
name = "city_trade"
version = "0.1.0"
edition = "2021"
publish = false

[dependencies]
bevy = { version = "0.18", default-features = false, features = ["bevy_ui", "bevy_sprite", "bevy_window"] }
