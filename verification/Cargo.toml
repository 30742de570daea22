[package]
name = "aimcore"
version = "0.1.0"
edition = "2021"
publish = false

[dependencies]
anyhow = "1"
image = "*"
rdev = "*"
serde = { version = "1", features = ["derive"] }
tfc = "*"
toml = "*"
x11rb = "*"
