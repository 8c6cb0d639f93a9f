[package]
name = "procedural_planet"
version = "0.1.0"
edition = "2021"
publish = false

[dependencies]
avian3d = { version = "0.2", default-features = false, features = ["3d", "f64", "parry-f64", "collider-from-mesh"] }
bevy = { version = "0.15", default-features = false, features = ["bevy_asset", "bevy_render"] }
big_space = "0.9"
smallvec = "1"
