[package]
name = "walldots"
version = "0.1.0"
edition = "2021"
publish = false

[dependencies]
anyhow = "1"
clap = { version = "4", features = ["derive"] }
image = { version = "0.25", default-features = false, features = ["png", "jpeg", "webp", "bmp", "gif", "tiff", "qoi", "tga", "pnm"] }
ratatui = "0.29"
ratatui-image = { version = "8", default-features = false, features = ["crossterm"] }
tiny-skia = "0.11"
