[package]
name = "tower_defence"
version = "0.1.0"
edition = "2021"
publish = false

[dependencies]
bevy = { version = "=0.9.1", default-features = false, features = ["bevy_asset", "bevy_scene", "bevy_winit", "bevy_core_pipeline", "bevy_pbr", "bevy_render", "bevy_gltf", "png", "x11"] }
bevy-inspector-egui = "=0.17.0"
