[package]
name = "tile_collision"
version = "0.1.0"
edition = "2021"
publish = false

[dependencies]
bevy = { version = "=0.17.3", default-features = false, features = ["std", "multi_threaded", "bevy_asset", "bevy_color", "bevy_core_pipeline", "bevy_log", "bevy_render", "bevy_sprite", "bevy_sprite_render", "bevy_window", "png"] }
bevy_procedural_tilemaps = "0.1"
