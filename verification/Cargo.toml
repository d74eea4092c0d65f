[package]
name = "kretes"
version = "0.1.0"
edition = "2021"
publish = false

[dependencies]
bevy = { version = "=0.15.3", default-features = false, features = ["bevy_sprite", "bevy_asset", "bevy_render", "bevy_core_pipeline", "bevy_window", "png"] }
bevy_audio = { version = "=0.15.3", default-features = false }
bevy_time = { version = "=0.15.3", default-features = false }
rand = "=0.8.8"
