[package]
name = "kopye"
version = "0.1.0"
edition = "2021"
publish = false

[dependencies]
clap = { version = "4", features = ["cargo"] }
colored = "2"
env_logger = "0.11"
git2 = "0.19"
indexmap = { version = "2", features = ["serde"] }
inquire = { version = "0.7", features = ["editor"] }
lazy_static = "1"
log = "0.4"
miette = { version = "7", features = ["fancy"] }
regex = "1"
serde = { version = "1", features = ["derive"] }
tempfile = "3"
tera = "1"
thiserror = "1"
toml = "0.8"
walkdir = "2"
