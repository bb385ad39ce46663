[package]
name = "speedread"
version = "0.1.0"
edition = "2021"
publish = false

[dependencies]
anyhow = "*"
clap = { version = "*", features = ["derive"] }
crossterm = "*"
epub = "*"
html2text = "*"
ratatui = "*"
strum = { version = "*", features = ["derive"] }
tui-tree-widget = "*"
