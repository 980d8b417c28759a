[package]
name = "raymarcher"
version = "0.1.0"
edition = "2021"
publish = false

[dependencies]
eframe = { version = "0.29", default-features = false, features = ["default_fonts", "glow", "wayland", "x11"] }
egui = { version = "0.29", default-features = false }
log = "0.4"
nalgebra = "0.33"
wasm-bindgen-futures = "0.4"
web-sys = "0.3"
web-time = "1"
