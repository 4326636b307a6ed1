[package]
name = "matrix_speedrunner"
version = "0.1.0"
edition = "2021"
publish = false

[dependencies]
rand = "0.8"
chrono = "0.4"
ratatui = "0.29"
crossterm = "0.28"
color-eyre = "0.6"
dirs = "5"
toml = "0.8"
serde = { version = "1", features = ["derive"] }
calamine = "*"
rust_xlsxwriter = "*"
