[package]
name = "simple_electronics"
version = "0.1.0"
edition = "2021"
publish = false

[dependencies]
specs = { version = "=0.20.0", default-features = false }
macroquad = "=0.4.16"
egui = "=0.31.1"
egui-macroquad = "=0.17.3"
