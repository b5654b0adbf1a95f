[package]
name = "jqtui"
version = "0.1.0"
edition = "2021"
publish = false

[dependencies]
jq-rs = { version = "0.4", features = ["bundled"] }
ratatui = "0.26"
crossterm = "0.27"
clap = { version = "4", features = ["derive"] }
