[package]
name = "invadrust"
version = "0.1.0"
edition = "2021"
publish = false

[dependencies]
bevy = { version = "=0.7.0", default-features = false, features = ["render", "bevy_winit", "png", "x11"] }
darling = "=0.13.4"
