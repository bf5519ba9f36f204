[package]
name = "note"
version = "0.1.0"
edition = "2021"
publish = false

[dependencies]
ulid = "1"
pulldown-cmark = { version = "*", default-features = false }
serde = { version = "1", features = ["derive"] }
serde_json = "1"
anyhow = "1"
thiserror = "*"
clap = { version = "4", features = ["derive"] }
directories = "*"
figment = { version = "*", features = ["toml", "env"] }
rusqlite = { version = "*", features = ["bundled"] }
refinery = { version = "*", features = ["rusqlite"] }
tempfile = "3"
termimad = "*"
ratatui = "*"
ratatui-tea = "*"
ratatui-bubbletea-theme = "*"
tui-markdown = "*"
