[package]
name = "deltatune"
version = "0.1.0"
edition = "2021"
publish = false

[dependencies]
anyhow = "1"
gtk = "0.18"
image = { version = "0.24", default-features = false, features = ["png"] }
minifb = "0.27"
mpris = "2"
serde = { version = "1", features = ["derive"] }
serde_json = "1"
smithay-client-toolkit = "0.18"
tray-icon = "*"
wayland-client = "0.31"
