[package]
name = "worktree_admin"
version = "0.1.0"
edition = "2021"
publish = false

[dependencies]
anyhow = "1"
color-eyre = "0.6"
crossterm = "0.28"
glob = "0.3"
ratatui = "0.29"
serde = { version = "1", features = ["derive"] }
