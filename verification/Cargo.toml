[package]
name = "asciinema_scenario"
version = "0.1.0"
edition = "2021"
publish = false

[dependencies]
asciicast = "*"
failure = "*"
html-escape = "*"
serde = { version = "*", features = ["derive"] }
serde_json = "*"
simplelog = "*"
structopt = "*"
structopt-flags = "*"
svg = "*"
