[package]
name = "lightyear"
version = "0.1.0"
edition = "2021"
publish = false

[dependencies]
bytes = "=1.12.1"
bevy_platform = "=0.19.1"
bevy_ecs = "=0.19.1"
avian2d = { version = "=0.7.0", default-features = false, features = ["2d", "f32", "parry-f32"] }
