[package]
name = "bf"
version = "0.1.0"
edition = "2021"
publish = false

[dependencies]
sha1 = "0.10"
anyhow = "1"
clap = { version = "4", features = ["derive"] }
crossterm = "0.28"
ratatui = "0.29"
tui-textarea = "0.7"
term_size = "0.3"

[dev-dependencies]
fastrand = "2"
