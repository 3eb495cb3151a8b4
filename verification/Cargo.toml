[package]
name = "hyprlauncher"
version = "0.1.0"
edition = "2021"
publish = false

[dependencies]
serde = { version = "1", features = ["derive"] }
toml = "*"
shellexpand = "*"
dirs = "*"
walkdir = "2"
rayon = "1"
tokio = { version = "1", features = ["macros", "rt-multi-thread", "sync"] }
log = "*"
env_logger = "*"
