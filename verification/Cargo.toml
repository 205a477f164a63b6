[package]
name = "ll"
version = "0.1.0"
edition = "2021"
publish = false

[dependencies]
anyhow = "1"
chrono = "0.4"
colored = "2"
crossterm = "0.28"
strip-ansi-escapes = "0.2"
web-time = "1"
serde = { version = "1", features = ["derive"] }
serde_json = "1"
tokio = { version = "1", features = ["rt", "rt-multi-thread", "time", "macros"] }
lazy_static = "1"
syn = { version = "2", features = ["full"] }
quote = "1"
proc-macro2 = "1"
wasm-bindgen = "0.2"
web-sys = { version = "0.3", features = ["console", "Window"] }
rand = "0.9"
