[package]
name = "ttf_loader"
version = "0.1.0"
edition = "2021"
publish = false

[dependencies]
bytemuck = "1"
glow = "0.14"
glutin = "0.32"
raw-window-handle = "0.6"
winit = "0.30"
