[package]
name = "code_seek"
version = "0.1.0"
edition = "2021"
publish = false

[dependencies]
clap = { version = "4", features = ["derive"] }
serde = { version = "1", features = ["derive"] }
serde_json = "1"
sha2 = "0.10"
toml = "*"
unicode-width = "*"
tree-sitter = "*"
tree-sitter-c = "*"
tree-sitter-cpp = "*"
tree-sitter-qmljs = "*"
tree-sitter-rust = "*"
tree-sitter-go = "*"
tree-sitter-javascript = "*"
tree-sitter-python = "*"
tree-sitter-typescript = "*"
tree-sitter-elixir = "*"
