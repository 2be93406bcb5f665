[package]
name = "rustgames"
version = "0.1.0"
edition = "2021"
publish = false

[dependencies]
glam = "*"
rand = "*"
bytemuck = { version = "*", features = ["derive"] }
