[package]
name = "cookiecutter"
version = "0.1.0"
edition = "2021"
publish = false

[dependencies]
rusqlite = { version = "*", features = ["bundled"] }
chrono = "*"
clap = { version = "*", features = ["derive"] }
crossterm = "*"
once_cell = "*"
sysinfo = "*"
walkdir = "*"
