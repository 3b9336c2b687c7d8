[package]
name = "anti_tower"
version = "0.1.0"
edition = "2021"
publish = false

[dependencies]
bevy = { version = "0.13", default-features = false }
bevy_time = "0.13"
bevy_utils = "0.13"
