[package]
name = "shinra"
version = "0.1.0"
edition = "2021"
publish = false

[dependencies]
serde = { version = "=1.0.229", features = ["derive"] }
ron = "=0.12.3"
crossterm = "=0.29.0"
tobj = "*"
glam = "*"
