[package]
name = "gtd-cli"
version = "0.1.0"
edition = "2021"
publish = false

[dependencies]
chrono = "0.4"
clap = { version = "4", features = ["derive"] }
crossterm = "*"
dirs = "*"
unicode-width = "*"
