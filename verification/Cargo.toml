[package]
name = "sketchbook"
version = "0.1.0"
edition = "2021"
publish = false

[dependencies]
bevy = { version = "=0.18.1", default-features = false, features = ["std", "bevy_asset", "bevy_window", "bevy_render", "bevy_core_pipeline", "bevy_sprite", "bevy_camera", "bevy_image", "bevy_color", "bevy_mesh", "bevy_shader"] }
bevy_egui = { version = "0.39", default-features = false, features = ["render"] }
