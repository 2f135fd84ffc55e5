[package]
name = "super-radio"
version = "0.1.0"
edition = "2021"
publish = false

[dependencies]
anyhow = "=1.0.104"
crossbeam-channel = "=0.5.17"
eframe = { version = "=0.34.3", default-features = false, features = ["default_fonts", "glow", "x11"] }
egui = { version = "=0.34.3", default-features = false, features = ["default_fonts"] }
image = { version = "=0.25.10", default-features = false, features = ["png"] }
num-complex = "=0.4.6"
parking_lot = "=0.12.5"
rayon = "=1.12.0"
rustfft = "=6.4.1"
serde = { version = "=1.0.229", features = ["derive"] }
tracing = "=0.1.44"
tracing-subscriber = "=0.3.23"
