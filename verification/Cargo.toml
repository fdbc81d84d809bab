[package]
name = "search_mesh"
version = "0.1.0"
edition = "2021"
publish = false

[dependencies]
aho-corasick = "1"
ignore = "*"
serde = { version = "1", features = ["derive"] }
serde_json = "1"
thiserror = "*"
tree-sitter = "*"
tree-sitter-rust = "*"
tree-sitter-python = "*"
tree-sitter-javascript = "*"
tree-sitter-typescript = "*"
