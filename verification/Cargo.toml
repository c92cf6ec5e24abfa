[package]
name = "iconpacker"
version = "0.1.0"
edition = "2021"
publish = false

[dependencies]
brotli = "*"
clap = { version = "*", features = ["derive"] }
kurbo = "*"
serde = { version = "*", features = ["derive"] }
serde_json = "*"
usvg = "*"
write-fonts = "*"
