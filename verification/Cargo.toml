[package]
name = "quasar-sdr"
version = "0.1.0"
edition = "2021"
publish = false

[dependencies]
crossbeam-channel = "0.5"
crossbeam-queue = "0.3"
eframe = { version = "0.31", default-features = false, features = ["default_fonts", "glow", "x11"] }
libloading = "0.8"
nnnoiseless = { version = "0.5", default-features = false }
num-complex = "0.4"
rustfft = "6"
