[package]
name = "chippy8"
version = "0.1.0"
edition = "2021"
publish = false

[dependencies]
rand = "=0.8.8"
eframe = { version = "=0.24.1", default-features = false, features = ["glow", "x11"] }
egui = { version = "=0.24.1", default-features = false }
egui_extras = { version = "=0.24.2", default-features = false }
