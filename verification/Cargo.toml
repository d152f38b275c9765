[package]
name = "authors"
version = "0.1.0"
edition = "2021"
publish = false

[dependencies]
annotate-snippets = "*"
anyhow = "*"
clap = { version = "*", features = ["derive"] }
env_logger = "*"
log = "*"
serde = { version = "*", features = ["derive"] }
