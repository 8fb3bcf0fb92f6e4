[package]
name = "agentic_tui"
version = "0.1.0"
edition = "2021"
publish = false

[dependencies]
anyhow = "1"
axum = { version = "*", features = ["ws"] }
console_error_panic_hook = "0.1"
crossterm = "*"
dirs = "*"
gloo-net = { version = "*", default-features = false, features = ["http", "json"] }
leptos = { version = "*", features = ["csr"] }
leptos_router = "*"
mime_guess = "2"
open = "5"
ratatui = "*"
rust-embed = "8"
serde = { version = "1", features = ["derive"] }
serde_json = { version = "1", features = ["raw_value"] }
tokio = { version = "1", features = ["full"] }
toml = "*"
wasm-bindgen = "0.2"
web-sys = { version = "0.3", features = ["Location", "MessageEvent", "WebSocket", "Window"] }
