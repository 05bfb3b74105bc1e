[package]
name = "voido"
version = "0.1.0"
edition = "2021"
publish = false

[dependencies]
rusqlite = { version = "*", features = ["bundled"] }
fuzzy-matcher = "*"
directories = "*"
chrono = "*"
clap = { version = "*", features = ["derive"] }
serde = { version = "*", features = ["derive"] }
serde_json = "*"
toml = "*"
colored = "*"
ratatui = "*"
crossterm = "*"
pulldown-cmark = "*"
calamine = "*"
xlsxwriter = "*"
