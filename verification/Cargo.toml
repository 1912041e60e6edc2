[package]
name = "gitjobs"
version = "0.1.0"
edition = "2021"
publish = false

[dependencies]
git2 = "*"
anyhow = "*"
crossterm = "*"
ratatui = "*"

[dev-dependencies]
tempfile = "*"
