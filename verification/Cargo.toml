[package]
name = "dex_mcp_server"
version = "0.1.0"
edition = "2021"
publish = false

[dependencies]
chrono = "0.4"
serde = { version = "1", features = ["derive"] }
serde_json = "1"
ureq = { version = "2", default-features = false }
urlencoding = "2"
dotenvy = "0.15"
