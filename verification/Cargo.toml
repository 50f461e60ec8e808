[package]
name = "rg_vulkan"
version = "0.1.0"
edition = "2021"
publish = false

[dependencies]
guillotiere = "0.6"
uuid = "1"
glam = "0.29"
ash = "0.38"
ash-window = "0.13"
raw-window-handle = "0.6"
winit = "0.30"
ab_glyph = "0.2"
log = "0.4"
tracing = "0.1"
thiserror = "2"
serde = { version = "1", features = ["derive"] }
toml = "0.5"
png = "0.18"
