[package]
name = "hangman"
version = "0.1.0"
edition = "2021"
publish = false

[dependencies]
random_word = { version = "*", features = ["en"] }
ratatui = "*"
crossterm = "*"
dirs = "*"

[dev-dependencies]
serde_json = "*"
