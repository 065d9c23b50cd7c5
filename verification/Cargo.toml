[package]
name = "chipmunk_cli"
version = "0.1.0"
edition = "2021"
publish = false

[dependencies]
anyhow = "*"
clap = { version = "*", features = ["derive"] }
dirs = "*"
git2 = { version = "*", default-features = false }
tokio = { version = "*", features = ["macros", "rt-multi-thread", "process", "signal", "sync"] }
