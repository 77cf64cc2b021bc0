[package]
name = "rcode"
version = "0.1.0"
edition = "2021"
publish = false

[dependencies]
async-openai = { version = "=0.43.0", features = ["chat-completion"] }
crossterm = "=0.29.0"
futures = "=0.3.34"
ratatui = { version = "=0.30.2", features = ["unstable-rendered-line-info"] }
serde = { version = "=1.0.229", features = ["derive"] }
serde_json = "=1.0.154"
termimad = "=0.35.5"
tokio = { version = "=1.54.1", features = ["macros", "rt-multi-thread"] }
toml = "=1.1.8"
unicode-width = "=0.2.3"
