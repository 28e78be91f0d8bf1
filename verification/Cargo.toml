[package]
name = "herdr-dev"
version = "0.1.0"
edition = "2021"
publish = false

[dependencies]
sha2 = "*"
toml_edit = "*"
serde_json = "*"
libc = "*"
crossterm = "*"
ratatui = "*"
