[package]
name = "optra"
version = "0.1.0"
edition = "2021"
publish = false

[dependencies]
anyhow = "=1.0.104"
chrono = "=0.4.45"
crossbeam-channel = "=0.5.17"
eframe = { version = "=0.37.0", default-features = false, features = ["default_fonts", "glow", "x11"] }
egui = "=0.37.0"
egui_commonmark = "=0.26.0"
image = { version = "=0.25.10", default-features = false, features = ["jpeg", "png"] }
nalgebra = { version = "=0.35.0", features = ["serde-serialize"] }
nokhwa = { version = "=0.10.11", features = ["input-msmf"] }
parking_lot = "=0.12.5"
serde = { version = "=1.0.229", features = ["derive"] }
toml = "=1.1.8"
tracing = "=0.1.44"
windows = { version = "=0.62.2", features = ["Win32_Media_DirectShow", "Win32_Media_MediaFoundation", "Win32_System_Com"] }
