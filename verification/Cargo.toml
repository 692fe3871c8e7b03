[package]
name = "lspgraph"
version = "0.1.0"
edition = "2021"
publish = false

[dependencies]
lsp-types = "0.95"
serde = { version = "1", features = ["derive"] }
serde_json = "1"
sha2 = "0.10"
toml = "0.8"
dirs = "5"
thiserror = "1"
ratatui = "0.29"
