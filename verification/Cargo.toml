[package]
name = "preflop_trainer_core"
version = "0.1.0"
edition = "2021"
publish = false

[dependencies]
rand = "0.9"
serde = { version = "1", features = ["derive"] }
toml = "*"
dirs = "*"
clap = { version = "*", features = ["derive"] }
colored = "*"
termion = "*"
