[package]
name = "keylayout"
version = "0.1.0"
edition = "2021"
publish = false

[dependencies]
fontdue = "*"
minifb = "*"
rdev = "*"
serde = { version = "*", features = ["derive"] }
serde_ini = "*"
