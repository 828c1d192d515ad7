[package]
name = "epd_display"
version = "0.1.0"
edition = "2021"
publish = false

[dependencies]
embedded-graphics = "0.8"
embedded-graphics-framebuf = "0.5"
png = "0.17"
qrcode = { version = "0.14", default-features = false }
serde = { version = "1", features = ["derive"] }
serde_json = "1"
serde_with = "3"
yaml-merge-keys = { version = "*", features = ["serde_yaml"] }
gtmpl = "*"
gtmpl_value = "*"
axum = "0.7"
tokio = { version = "1", features = ["full"] }
clap = { version = "4", features = ["derive"] }
once_cell = "1"
embedded-hal = "1"
epd-waveshare = "*"
linux-embedded-hal = "*"
