[package]
name = "ozymem"
version = "0.1.0"
edition = "2021"
publish = false

[dependencies]
sha2 = "0.10"
hex = "0.4"
anyhow = "1"
serde = { version = "1", features = ["derive"] }
serde_json = "1"
home = "0.5"
toml = "0.8"
clap = { version = "4", features = ["derive"] }
rusqlite = { version = "0.31", features = ["bundled"] }
walkdir = "2"
chrono = "0.4"
notify = "6"
notify-debouncer-mini = "0.4"
dialoguer = "0.11"
tokio = { version = "1", features = ["rt-multi-thread", "macros"] }
petgraph = "0.6"
memmap2 = "0.9"
rkyv = { version = "0.7", features = ["validation"] }
git2 = { version = "0.18", default-features = false }
comfy-table = "7"
crossterm = "0.27"
ratatui = "0.26"
async-trait = "0.1"
