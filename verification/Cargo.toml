[package]
name = "breezy-cosmic"
version = "0.1.0"
edition = "2021"
publish = false

[dependencies]
anyhow = "1"
bytemuck = { version = "1", features = ["derive"] }
clap = { version = "4", features = ["derive"] }
dirs-next = "2"
glam = "0.29"
libc = "0.2"
memmap2 = "0.9"
pollster = "0.4"
serde = { version = "1", features = ["derive"] }
smithay-client-toolkit = { version = "0.20", default-features = false }
toml = "0.8"
tracing = "0.1"
tracing-subscriber = { version = "0.3", features = ["env-filter"] }
wayland-client = "0.31"
wgpu = "23"
