[package]
name = "graphlite"
version = "0.1.0"
edition = "2021"
publish = false

[dependencies]
anyhow = "1"
clap = { version = "4", features = ["derive"] }
crossbeam-channel = "0.5"
ctrlc = "3"
log = "0.4"
notify = "*"
quick-xml = "*"
rayon = "1"
rusqlite = { version = "*", features = ["bundled"] }
rustdoc-types = "0.57"
serde = { version = "1", features = ["derive"] }
serde_json = "1"
streaming-iterator = "0.1"
toml = "*"
tracing = "0.1"
tracing-subscriber = { version = "0.3", features = ["env-filter"] }
tree-sitter = "*"
tree-sitter-css = "*"
tree-sitter-html = "*"
tree-sitter-javascript = "*"
tree-sitter-rust = "*"
tree-sitter-svelte-ng = "*"
tree-sitter-typescript = "*"
walkdir = "2"
