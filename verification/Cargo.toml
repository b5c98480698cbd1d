[package]
name = "git-trek"
version = "0.1.0"
edition = "2021"
publish = false

[dependencies]
git2 = { version = "0.19", default-features = false }
ratatui = "0.29"
crossterm = "0.28"
clap = { version = "4", features = ["derive"] }
thiserror = "1"
anyhow = "1"
