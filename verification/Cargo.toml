[package]
name = "mug_tui"
version = "0.1.0"
edition = "2021"
publish = false

[dependencies]
anyhow = "1"
indoc = "2"
log = "0.4"
ratatui = "0.29"
rodio = "0.19"
serde = { version = "1", features = ["derive"] }
serde_json = "1"
simplelog = "0.12"
