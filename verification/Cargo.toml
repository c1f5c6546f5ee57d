[package]
name = "mandelbrot"
version = "0.1.0"
edition = "2021"
publish = false

[dependencies]
clap = "2"
palette = "0.5"
sdl2 = { version = "0.35", features = ["image"] }
serde = { version = "1", features = ["derive"] }
serde_json = "1"
