[package]
name = "camera_latency_test"
version = "0.1.0"
edition = "2021"
publish = false

[dependencies]
anyhow = "1"
clap = { version = "4", features = ["derive"] }
crossbeam-channel = "0.5"
csv = "1"
eframe = { version = "0.31", default-features = false, features = ["default_fonts", "glow", "x11"] }
nokhwa = "0.10"
pyo3 = { version = "0.20", features = ["extension-module", "abi3-py38"] }
serde = { version = "1", features = ["derive"] }
serde_json = "1"
