[package]
name = "workspace_bump"
version = "0.1.0"
edition = "2021"
publish = false

[dependencies]
clap = { version = "3", features = ["derive"] }
git2 = { version = "*", default-features = false }
serde = { version = "1", features = ["derive"] }
toml = "0.5"
