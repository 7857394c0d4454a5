[package]
name = "scviz"
version = "0.1.0"
edition = "2021"
publish = false

[dependencies]
anyhow = "1"
crossbeam-channel = "0.5"
eframe = { version = "0.22", default-features = false, features = ["default_fonts", "glow"] }
egui = "0.22"
jack = "0.11"
ringbuf = "0.3"
tracing-subscriber = "0.3"
