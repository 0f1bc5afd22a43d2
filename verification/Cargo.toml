[package]
name = "lsp_server"
version = "0.1.0"
edition = "2021"
publish = false

[dependencies]
dashmap = "*"
serde = { version = "*", features = ["derive"] }
serde_json = "*"
streaming-iterator = "*"
tokio = { version = "*", features = ["full"] }
tower-lsp-server = "*"
tree-sitter = "*"
tree-sitter-javascript = "*"
tree-sitter-rust = "*"
tree-sitter-typescript = "*"
walkdir = "*"
