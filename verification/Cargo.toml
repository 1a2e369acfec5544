[package]
name = "caret"
version = "0.4.0"
edition = "2021"
publish = false

[dependencies]
anyhow = "1"
argh = "0.1"
arrow = "*"
axum = "*"
bytes = "1"
crossterm = "*"
csv = "1"
lru = "*"
memmap2 = "0.9"
parquet = "*"
ratatui = "*"
rayon = "1"
regex = "1"
reqwest = { version = "*", default-features = false, features = ["json", "rustls-tls"] }
serde = { version = "1", features = ["derive"] }
serde_json = "1"
tiktoken-rs = "*"
tokenizers = { version = "*", default-features = false, features = ["onig"] }
tokio = { version = "1", features = ["rt-multi-thread", "macros", "sync", "net"] }
tower-http = { version = "*", features = ["cors"] }
tracing = "0.1"
tracing-subscriber = { version = "0.3", features = ["env-filter"] }
