[package]
name = "flora"
version = "26.0.1"
edition = "2021"
publish = false

[dependencies]
anyhow = "1"
egui = { version = "=0.31.1", default-features = false }
libc = "=0.2.191"
smithay = { version = "=0.7.0", default-features = false, features = ["wayland_frontend", "renderer_glow", "backend_winit", "backend_drm", "backend_gbm", "backend_egl", "backend_libinput"] }
smithay-egui = "=0.2.0"
tracing = "0.1"
tracing-subscriber = "0.3"
