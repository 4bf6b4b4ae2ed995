[package]
name = "proxy_demo"
version = "0.1.0"
edition = "2021"
publish = false

[dependencies]
clap = { version = "4", features = ["string"] }
eframe = { version = "*", default-features = false, features = ["default_fonts", "glow", "x11", "wayland"] }
egui_plot = "*"
nix = { version = "*", features = ["sched", "time", "process"] }
