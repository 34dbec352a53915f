[package]
name = "shoji_wm"
version = "0.1.0"
edition = "2021"
publish = false

[dependencies]
cgmath = "=0.18.0"
fontdb = "=0.23.0"
fontdue = "=0.9.5"
png = "=0.17.16"
resvg = "=0.45.1"
serde = { version = "=1.0.229", features = ["derive"] }
serde_json = "=1.0.154"
smithay = { version = "=0.7.0", default-features = false, features = ["desktop", "wayland_frontend", "renderer_gl", "backend_winit", "backend_drm", "backend_gbm", "backend_libinput"] }
smithay-drm-extras = { version = "=0.1.0", default-features = false }
thiserror = "=2.0.21"
tracing = "=0.1.44"
tracing-subscriber = { version = "=0.3.23", features = ["env-filter"] }
xkbcommon = "=0.8.0"
