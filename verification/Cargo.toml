[package]
name = "image_plugins"
version = "0.1.0"
edition = "2021"
publish = false

[dependencies]
anyhow = "*"
clap = { version = "*", features = ["derive"] }
image = "*"
libloading = "*"
log = "*"
thiserror = "*"
