[package]
name = "vardoku"
version = "0.1.0"
edition = "2021"
publish = false

[dependencies]
rand = "=0.8.8"
sudokugen = "=0.4.0"
eframe = { version = "=0.27.2", default-features = false, features = ["glow"] }
egui_extras = "=0.27.2"
egui_grid = "=0.5.1"
