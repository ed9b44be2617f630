[package]
name = "astrocommunity_cli"
version = "0.1.0"
edition = "2021"
publish = false

[dependencies]
anyhow = "1"
bat = { version = "*", default-features = false, features = ["regex-fancy"] }
clap = { version = "4", features = ["derive"] }
cli-clipboard = "*"
dirs = "*"
regex = "1"
serde = { version = "1", features = ["derive"] }
serde_json = "1"
tokio = { version = "1", features = ["macros", "rt-multi-thread", "signal"] }
walkdir = "2"
which = "*"
