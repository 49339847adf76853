[package]
name = "marko"
version = "0.1.0"
edition = "2021"
publish = false

[dependencies]
pulldown-cmark = { version = "=0.13.5", default-features = false }
syntect = { version = "=5.3.0", default-features = false, features = ["default-fancy"] }
ratatui = "=0.29.0"
ratatui-image = { version = "=4.2.0", default-features = false, features = ["crossterm"] }
image = { version = "=0.25.10", default-features = false, features = ["png", "jpeg", "gif", "bmp", "tiff"] }
resvg = { version = "=0.45.1", default-features = false }
crossterm = "=0.28.1"
tui-textarea = "=0.7.0"
clap = { version = "=4.6.7", features = ["derive"] }
git2 = { version = "=0.20.4", default-features = false }
arboard = { version = "=3.7.0", default-features = false, features = ["image-data"] }
self_update = { version = "=0.42.0", default-features = false }
