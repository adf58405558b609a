[package]
name = "tpane"
version = "0.1.0"
edition = "2021"
publish = false

[dependencies]
alacritty_terminal = "*"
anyhow = "1"
arboard = { version = "3", default-features = false }
crossterm = "0.28"
dirs = "*"
env_logger = "*"
log = "0.4"
mlua = { version = "0.11", features = ["lua54", "vendored"] }
parking_lot = "0.12"
portable-pty = "*"
ratatui = "0.29"
