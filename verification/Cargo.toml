[package]
name = "launchx"
version = "0.1.0"
edition = "2021"
publish = false

[dependencies]
chrono = "0.4"
uuid = { version = "1", features = ["v4"] }
serde = { version = "1", features = ["derive"] }
serde_json = "1"
open = "5"
egui = "0.31"
eframe = { version = "0.31", default-features = false, features = ["wgpu", "default_fonts", "x11"] }
rfd = "0.15"
