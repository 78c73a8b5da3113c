[package]
name = "voxel_fortress"
version = "0.1.0"
edition = "2021"
publish = false

[dependencies]
noise = "=0.9.0"
futures-lite = "2"
bevy = { version = "0.15", default-features = false, features = ["bevy_asset", "bevy_render", "bevy_core_pipeline", "bevy_pbr", "bevy_state", "bevy_winit", "x11", "multi_threaded"] }
