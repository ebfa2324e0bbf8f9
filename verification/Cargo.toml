[package]
name = "tanki"
version = "0.1.0"
edition = "2021"
publish = false

[dependencies]
uuid = { version = "*", features = ["v4"] }
textwrap = "*"
crossterm = "*"
ratatui = "*"
color-eyre = "*"
rusqlite = { version = "*", features = ["bundled"] }
tempfile = "*"
zip = { version = "*", default-features = false, features = ["deflate"] }
