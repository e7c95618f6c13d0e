[package]
name = "composition"
version = "0.1.0"
edition = "2021"
publish = false

[dependencies]
clap = { version = "*", features = ["derive"] }
colored = "*"
dirs = "*"
ignore = "*"
once_cell = "*"
rayon = "*"
regex = "*"
serde = { version = "*", features = ["derive"] }
toml = "*"
walkdir = "*"
