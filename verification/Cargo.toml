[package]
name = "irename"
version = "0.1.0"
edition = "2021"
publish = false

[dependencies]
regex = "1"
anyhow = "1"
clap = { version = "3.2", features = ["derive"] }
termion = "1.5"
tui = { version = "0.19", default-features = false, features = ["termion"] }
