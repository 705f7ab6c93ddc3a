[package]
name = "talos"
version = "0.1.0"
edition = "2021"
publish = false

[dependencies]
clap = { version = "4", features = ["derive"] }
globset = "0.4"
ignore = "0.4"
serde = { version = "1", features = ["derive"] }
serde_json = "1"
time = { version = "0.3", features = ["formatting"] }
tree-sitter = "0.20"
tree-sitter-css = "0.20"
tree-sitter-javascript = "0.20"
tree-sitter-typescript = "0.20"
