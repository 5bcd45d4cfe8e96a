[package]
name = "demo_stats"
version = "0.1.0"
edition = "2021"
publish = false

[dependencies]
anyhow = "1"
clap = { version = "4", features = ["derive"] }
eframe = { version = "0.31", default-features = false, features = ["default_fonts", "glow", "x11"] }
egui-dropdown = "0.13"
egui_plot = "0.31"
fixed = { version = "1", features = ["serde"] }
rsn = "*"
serde = { version = "1", features = ["derive"] }
serde_json = "1"
serde_yaml = "0.9"
stringlit = "*"
toml = "0.8"
twsnap = "*"
winit = { version = "0.30", default-features = false, features = ["rwh_06", "x11"] }
