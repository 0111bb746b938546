[package]
name = "longhorn"
version = "0.1.0"
edition = "2021"
publish = false

[dependencies]
itertools = "*"
soloud = "*"
ratatui = "0.29"
crossterm = "0.28"
