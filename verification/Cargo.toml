[package]
name = "rapid_analyzer"
version = "0.1.0"
edition = "2021"
publish = false

[dependencies]
anyhow = "=1.0.104"
chrono = { version = "=0.4.45", default-features = false, features = ["std"] }
eframe = { version = "=0.37.0", default-features = false, features = ["default_fonts", "glow", "x11"] }
egui = "=0.37.0"
egui_plot = "=0.38.0"
egui_tiles = { version = "=0.18.0", default-features = false }
env_logger = { version = "=0.11.11", default-features = false }
image = { version = "=0.25.10", default-features = false, features = ["png"] }
log = "=0.4.35"
mavlink-core = { version = "=0.21.0", default-features = false, features = ["serde", "std"] }
quick-xml = "=0.42.0"
rfd = { version = "=0.17.2", default-features = false, features = ["xdg-portal"] }
rodio = { version = "=0.23.0", default-features = false, features = ["playback"] }
rusqlite = "=0.41.1"
serde_json = "=1.0.154"
