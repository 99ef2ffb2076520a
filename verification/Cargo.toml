[package]
name = "vagga_build"
version = "0.1.0"
edition = "2021"
publish = false

[dependencies]
quire = "*"
serde = { version = "*", features = ["derive"] }
rustc-serialize = "*"
