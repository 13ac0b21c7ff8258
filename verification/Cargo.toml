[package]
name = "tessera"
version = "0.1.0"
edition = "2021"
publish = false

[dependencies]
anyhow = "1"
fontdb = "0.23"
ratatui = { version = "0.30", default-features = false }
rustix = { version = "1", features = ["fs", "process", "pipe", "event"] }
serde = { version = "1", features = ["derive"] }
serde_json = "1"
smithay = { version = "0.7", default-features = false, features = ["backend_winit", "backend_udev", "backend_drm", "backend_gbm", "backend_egl", "backend_libinput", "backend_session_libseat", "renderer_gl", "desktop", "wayland_frontend"] }
swash = "0.2"
thiserror = "2"
toml_edit = { version = "0.23", features = ["serde"] }
tracing = "0.1"
tracing-subscriber = { version = "0.3", features = ["env-filter"] }
