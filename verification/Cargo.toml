[package]
name = "godot_bevy_ecs_demo"
version = "0.1.0"
edition = "2021"
publish = false

[dependencies]
bevy_ecs = "*"
godot = "*"
syn = "2"
quote = "1"
proc-macro2 = "1"
