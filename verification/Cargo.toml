[package]
name = "hawk"
version = "0.1.0"
edition = "2021"
publish = false

[dependencies]
anyhow = "1"
crossterm = "0.28"
portable-pty = "0.8"
ratatui = "0.29"
vt100 = "0.15"
