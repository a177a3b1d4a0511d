[package]
name = "gd_server"
version = "0.1.0"
edition = "2021"
publish = false

[dependencies]
anyhow = "1"
camino = "1"
crossbeam-channel = "0.5"
dunce = "1"
log = "0.4"
lru = "*"
lsp-server = "0.7"
lsp-types = "0.97"
notify = "8"
notify-debouncer-full = { version = "0.6", features = ["crossbeam-channel"] }
ropey = "1"
rustc-hash = "2"
same-file = "1"
serde = { version = "1", features = ["derive"] }
serde_json = "1"
tracing = "0.1"
walkdir = "2"
