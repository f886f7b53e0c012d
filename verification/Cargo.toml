[package]
name = "island_command"
version = "0.1.0"
edition = "2021"
publish = false

[dependencies]
bevy_ecs = { version = "0.16", default-features = false, features = ["std"] }
