[package]
name = "whkd"
version = "0.1.0"
edition = "2021"
publish = false

[dependencies]
global-hotkey = "*"
clap = { version = "*", features = ["derive"] }
color-eyre = "*"
dirs = "*"
parking_lot = "*"
winit = "*"
