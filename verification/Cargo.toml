[package]
name = "boids"
version = "0.1.0"
edition = "2021"
publish = false

[dependencies]
bytemuck = { version = "1", features = ["derive"] }
rand = "0.9"

[dependencies.bevy]
version = "0.18"
default-features = false
features = ["bevy_asset", "bevy_core_pipeline", "bevy_render", "bevy_sprite", "bevy_sprite_render", "bevy_state", "bevy_text", "bevy_ui", "bevy_ui_render", "bevy_window", "std"]
