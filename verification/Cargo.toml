[package]
name = "flashcards_app"
version = "0.1.0"
edition = "2021"
publish = false

[dependencies]
chrono = "=0.4.45"
eframe = { version = "0.24", default-features = false, features = ["default_fonts", "glow", "x11"] }
egui = "0.24"
rfd = { version = "=0.14.1", default-features = false, features = ["xdg-portal", "async-std"] }
rusqlite = { version = "=0.31.0", features = ["bundled"] }
serde = { version = "=1.0.229", features = ["derive"] }
serde_json = "=1.0.154"
