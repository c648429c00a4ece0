[package]
name = "bookmill"
version = "0.1.0"
edition = "2021"
publish = false

[dependencies]
anyhow = "=1.0.104"
serde = { version = "=1.0.229", features = ["derive"] }
serde_json = "=1.0.154"
toml = "=1.1.8"
sha2 = "=0.10.9"
comrak = { version = "=0.59.0", default-features = false }
zip = { version = "=9.2.2", default-features = false, features = ["deflate"] }
lopdf = "=0.46.0"
glob = "=0.3.4"
image = { version = "=0.25.10", default-features = false, features = ["png", "jpeg"] }
png = "=0.17.16"
color_quant = "=1.1.0"
oxipng = { version = "=9.1.5", default-features = false }
mozjpeg = { version = "=0.10.13", default-features = false }
epub-builder = "=0.8.3"
clap = { version = "=4.6.7", features = ["derive"] }
ratatui = "0.29"
crossterm = "0.28"
