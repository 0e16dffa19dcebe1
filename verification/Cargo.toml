[package]
name = "matterhorn"
version = "0.1.0"
edition = "2021"
publish = false

[dependencies]
bytemuck = { version = "=1.25.2", features = ["derive"] }
clap = { version = "=4.6.7", default-features = false, features = ["derive", "std", "help", "usage", "error-context"] }
eframe = { version = "0.24", default-features = false, features = ["default_fonts", "glow", "x11"] }
egui = { version = "0.24", default-features = false }
image = { version = "=0.24.9", default-features = false, features = ["png"] }
pollster = "=0.3.0"
rfd = { version = "=0.14.1", default-features = false, features = ["xdg-portal", "async-std"] }
serde = { version = "=1.0.229", features = ["derive"] }
serde_json = "=1.0.154"
tempfile = "=3.27.0"
thiserror = "=1.0.69"
toml = "=0.8.23"
