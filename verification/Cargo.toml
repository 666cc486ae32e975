[package]
name = "ai_mentor"
version = "0.1.0"
edition = "2021"
publish = false

[dependencies]
anyhow = "=1.0.104"
chrono = { version = "=0.4.45", default-features = false, features = ["std", "now"] }
eframe = { version = "=0.32.3", default-features = false, features = ["default_fonts", "glow", "x11"] }
egui = "=0.32.3"
egui_commonmark = { version = "=0.21.1", default-features = false }
egui_plot = "=0.33.0"
rusqlite = { version = "=0.37.0", features = ["bundled"] }
self_update = "=0.44.0"
serde = { version = "=1.0.229", features = ["derive"] }
serde_json = "=1.0.154"
tempfile = "=3.27.0"
