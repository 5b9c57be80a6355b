[package]
name = "wordfrontier"
version = "0.1.0"
edition = "2021"
publish = false

[dependencies]
anyhow = "*"
argh = "*"
bzip2 = "*"
crossterm = "*"
env_logger = "*"
log = "*"
reqwest = { version = "*", default-features = false }
rusqlite = { version = "*", features = ["bundled"] }
thiserror = "*"
tokio = { version = "*", features = ["macros", "rt-multi-thread"] }
tui = "*"
