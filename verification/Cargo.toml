[package]
name = "tetris"
version = "0.1.0"
edition = "2021"
publish = false

[dependencies]
bevy = { version = "=0.19.1", default-features = false, features = ["std", "bevy_pbr", "bevy_ui"] }
rand = "=0.10.3"
