[package]
name = "text_to_cypher"
version = "0.1.0"
edition = "2021"
publish = false

[dependencies]
regex = "=1.13.1"
rand = "=0.9.5"
serde = { version = "=1.0.229", features = ["derive"] }
serde_json = "=1.0.154"
clap = { version = "=4.6.7", features = ["derive"] }
tokio = { version = "=1.54.1", features = ["macros", "rt-multi-thread", "sync"] }
futures = "=0.3.34"
rig-core = "=0.32.0"
indicatif = "=0.17.11"
anyhow = "=1.0.104"
ratatui = "=0.29.0"
crossterm = "=0.28.1"
syn = { version = "=2.0.119", features = ["full"] }
quote = "=1.0.47"
proc-macro2 = "=1.0.107"
