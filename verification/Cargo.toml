[package]
name = "shoot_graph"
version = "0.1.0"
edition = "2021"
publish = false

[dependencies]
bevy = { version = "=0.13.2", default-features = false }
egui = "=0.26.2"
egui-snarl = "=0.3.0"
