[package]
name = "game"
version = "0.1.0"
edition = "2021"
publish = false

[dependencies]
bevy = { version = "=0.17.3", default-features = false, features = ["bevy_sprite", "bevy_asset", "bevy_picking"] }
bevy_rapier2d = { version = "=0.32.0", default-features = false, features = ["dim2"] }
bevy_ecs_ldtk = { version = "=0.13.0", default-features = false, features = ["derive", "internal_levels"] }
bevy_ecs_tilemap = { version = "=0.17.0", default-features = false }
