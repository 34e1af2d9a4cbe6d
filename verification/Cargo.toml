[package]
name = "marks-client"
version = "0.1.0"
edition = "2021"
publish = false

[dependencies]
fuzzy-matcher = "=0.3.7"
url = "=2.5.8"
serde = { version = "=1.0.229", features = ["derive"] }
serde_json = "=1.0.154"
toml = "=0.9.12"
ureq = { version = "=3.5.1", features = ["json"] }
dirs = "=6.0.0"
eframe = { version = "=0.36.2", default-features = false, features = ["default_fonts", "glow", "x11", "wayland"] }
egui-phosphor = "=0.14.0"
image = { version = "=0.25.10", default-features = false, features = ["png", "ico", "jpeg", "gif", "webp"] }

[dev-dependencies]
ab_glyph = "=0.2.32"
