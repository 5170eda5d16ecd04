[package]
name = "beacn_utility"
version = "0.1.0"
edition = "2021"
publish = false

[dependencies]
anyhow = "1"
clap = { version = "4", features = ["derive"] }
directories = "*"
enum-map = "2"
file-rotate = "*"
iced = { version = "0.14", default-features = false, features = ["canvas", "tiny-skia", "tokio", "x11"] }
image = { version = "0.25", default-features = false, features = ["png"] }
interprocess = { version = "2", features = ["tokio"] }
log = "0.4"
log-panics = "2"
open = "*"
rustfft = "6"
serde = { version = "1", features = ["derive"] }
serde_json = "1"
simplelog = "0.12"
strum = { version = "*", features = ["derive"] }
tokio = { version = "1", features = ["full"] }
web-time = "1"
wide = "*"
