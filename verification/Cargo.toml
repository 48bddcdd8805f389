[package]
name = "reasonix_render"
version = "0.1.0"
edition = "2021"
publish = false

[dependencies]
unicode-width = "0.2"
pulldown-cmark = { version = "0.13", default-features = false }
ratatui = "0.29"
crossterm = "0.28"
serde = { version = "1", features = ["derive"] }
serde_json = "1"
anyhow = "1"
arboard = { version = "3", default-features = false }
chrono = "0.4"
