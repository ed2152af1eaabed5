[package]
name = "splitwm"
version = "0.1.0"
edition = "2021"
publish = false

[dependencies]
freedesktop-desktop-entry = { version = "=0.7.19", default-features = false }
freedesktop-icons = "=0.4.0"
smithay = { version = "=0.7.0", default-features = false, features = ["wayland_frontend", "desktop", "xwayland", "renderer_gl", "backend_egl", "backend_winit"] }
xcursor = "=0.3.11"
zbus = "=5.19.0"
tracing = "0.1"
tracing-subscriber = { version = "0.3", features = ["env-filter"] }
