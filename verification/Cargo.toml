[package]
name = "reclaim"
version = "0.1.4"
edition = "2021"
publish = false

[dependencies]
anyhow = "=1.0.104"
axum = "=0.8.9"
clap = { version = "=4.6.7", features = ["derive"] }
clap_complete = "=4.6.11"
crossterm = "=0.28.1"
dashmap = "=6.2.1"
directories = "=6.0.0"
glob = "=0.3.4"
jwalk = "=0.8.1"
mime_guess = "=2.0.5"
num_cpus = "=1.17.0"
ratatui = "=0.29.0"
rayon = "=1.12.0"
rust-embed = { version = "=8.13.0", features = ["interpolate-folder-path"] }
serde = { version = "=1.0.229", features = ["derive"] }
serde_json = "=1.0.154"
thiserror = "=2.0.21"
tokio = { version = "=1.54.1", features = ["macros", "net", "rt-multi-thread", "signal", "sync"] }
toml = "=0.8.23"
trash = "=5.2.9"
uuid = { version = "=1.29.0", features = ["v4"] }
