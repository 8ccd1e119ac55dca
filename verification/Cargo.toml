[package]
name = "limpid"
version = "0.1.0"
edition = "2021"
publish = false

[dependencies]
anyhow = "*"
camino = "*"
chrono = "*"
env_logger = "*"
itertools = "*"
owo-colors = "*"
pico-args = "*"
rustc-demangle = "*"
serde = { version = "*", features = ["derive"] }
serde_json = "*"
substance = "*"
uuid = { version = "*", features = ["v4"] }
