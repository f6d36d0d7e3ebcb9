[package]
name = "grin_terminal"
version = "0.1.0"
edition = "2021"
publish = false

[dependencies]
unicode-width = "*"
unicode-segmentation = "*"
vte = "*"
portable-pty = "*"
crossbeam-channel = "*"
toml = "*"
serde = { version = "*", features = ["derive"] }
anyhow = "*"
thiserror = "*"
