[package]
name = "speer_chat"
version = "0.1.0"
edition = "2021"
publish = false

[dependencies]
crossterm = "=0.29.0"
ratatui = "=0.30.2"
speer = { version = "=0.2.2", features = ["full-chat"] }
