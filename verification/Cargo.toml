[package]
name = "checkers"
version = "0.1.0"
edition = "2021"
publish = false

[dependencies]
rand = "=0.8.8"
eframe = { version = "=0.27.2", default-features = false, features = ["glow"] }
egui = "=0.27.2"
egui_extras = { version = "=0.27.2", default-features = false, features = ["file", "image"] }
