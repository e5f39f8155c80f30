[package]
name = "layout_inspector"
version = "0.1.0"
edition = "2021"
publish = false

[dependencies]
taffy = "=0.7.7"
egui = "=0.31.1"
eframe = { version = "=0.31.1", default-features = false, features = ["glow", "default_fonts", "x11"] }
