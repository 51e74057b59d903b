[package]
name = "mdformat"
version = "0.1.0"
edition = "2021"
publish = false

[dependencies]
markdown-table-formatter = "*"
clap = { version = "*", features = ["derive"] }
anyhow = "*"
