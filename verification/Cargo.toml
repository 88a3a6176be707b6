[package]
name = "color_wave"
version = "0.1.0"
edition = "2021"
publish = false

[dependencies]
eframe = "=0.17.0"
palette = "=0.7.7"
rand = "=0.8.8"
serde = { version = "1", features = ["derive"] }
