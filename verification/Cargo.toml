[package]
name = "chip8_core"
version = "0.1.0"
edition = "2021"
publish = false

[dependencies]
sdl2 = "*"
confy = "*"
serde = { version = "*", features = ["derive"] }
