[package]
name = "fmusim_gui"
version = "0.1.0"
edition = "2021"
publish = false

[dependencies]
crossbeam-channel = "=0.5.17"
eframe = { version = "=0.31.1", default-features = false, features = ["glow", "x11", "default_fonts"] }
egui = "=0.31.1"
egui_plot = "=0.31.0"
rfd = { version = "=0.17.2", default-features = false, features = ["xdg-portal"] }
tempfile = "=3.27.0"
