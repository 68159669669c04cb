[package]
name = "vidnux"
version = "0.1.0"
edition = "2021"
publish = false

[dependencies]
eframe = { version = "0.31", default-features = false, features = ["default_fonts", "glow", "x11"] }
egui = "0.31"
egui_extras = { version = "0.31", default-features = false }
rfd = "0.15"
libc = "0.2"
serde = { version = "1", features = ["derive"] }
serde_json = "1"
