[package]
name = "porpoise"
version = "0.1.0"
edition = "2021"
publish = false

[dependencies]
eframe = { version = "=0.35.0", default-features = false, features = ["default_fonts", "glow", "x11"] }
hayro = { version = "=0.9.0", default-features = false }
hayro-syntax = "=0.9.0"
lopdf = "=0.46.0"
png = "=0.18.1"
rfd = "=0.17.2"
serde = { version = "=1.0.229", features = ["derive"] }
serde_json = "=1.0.154"
thiserror = "=2.0.21"
tracing = { version = "=0.1.44", default-features = false, features = ["std"] }
