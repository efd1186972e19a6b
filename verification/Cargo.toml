[package]
name = "ui"
version = "0.1.0"
edition = "2021"
publish = false

[dependencies]
anyhow = "1"
crossterm = "0.27"
fuzzy-matcher = "0.3"
ratatui = "0.24"
