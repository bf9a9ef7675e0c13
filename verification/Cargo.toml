[package]
name = "lsproj"
version = "0.1.0"
edition = "2021"
publish = false

[dependencies]
git2 = { version = "*", default-features = false }
anyhow = "*"
clap = { version = "*", features = ["derive"] }
crossterm = "*"
