[package]
name = "lsp-bench"
version = "0.1.0"
edition = "2021"
publish = false

[dependencies]
serde = { version = "1", features = ["derive"] }
serde_json = "1"
serde_yaml = "0.9"
clap = { version = "4", features = ["derive"] }
console = "0.15"
indicatif = "0.17"
sysinfo = "0.30"
