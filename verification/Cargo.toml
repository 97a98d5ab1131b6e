[package]
name = "hyprpanopticon"
version = "0.1.0"
edition = "2021"
publish = false

[dependencies]
anyhow = "1"
async-channel = "2"
gtk4 = { version = "0.9", features = ["v4_12"] }
gtk4-layer-shell = "0.4"
hyprland = "0.4.0-beta.1"
memfd = "0.6"
serde = { version = "1", features = ["derive"] }
toml = "0.8"
wayland-client = "0.31"
wayland-protocols-hyprland = { version = "1", features = ["client"] }
