[package]
name = "skill_lsp"
version = "0.1.0"
edition = "2021"
publish = false

[dependencies]
regex = "1"
ropey = "1"
dashmap = "6"
tokio = { version = "1", features = ["io-std", "macros", "rt-multi-thread", "sync"] }
tower-lsp = "0.20"
serde = { version = "1", features = ["derive"] }
serde_json = "1"
tracing = "0.1"
tracing-subscriber = "0.3"
zed_extension_api = "*"
