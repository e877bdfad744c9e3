[package]
name = "codex_grok"
version = "0.1.0"
edition = "2021"
publish = false

[dependencies]
chrono = "0.4"
textwrap = "0.16"
unicode-width = "0.2"
sha2 = "0.10"
urlencoding = "2"
url = "2"
base64 = "0.22"
rand = "0.9"
uuid = { version = "1", features = ["v4"] }
serde = { version = "1", features = ["derive"] }
serde_json = "1"
ratatui = { version = "0.29", default-features = false }
tiny_http = "0.12"
tokio = { version = "1", features = ["rt-multi-thread", "sync", "macros"] }
tracing = "0.1"
tracing-subscriber = { version = "0.3", features = ["fmt", "env-filter", "json"] }
tracing-appender = "0.2"
webbrowser = "1"
