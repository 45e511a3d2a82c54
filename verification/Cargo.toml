[package]
name = "icelang_ls"
version = "0.1.0"
edition = "2021"
publish = false

[dependencies]
dashmap = "5"
tower-lsp = "0.20"
tree-sitter = "0.20"
tree-sitter-icelang = "*"
