[package]
name = "flowgraph"
version = "0.1.0"
edition = "2021"
publish = false

[dependencies]
anyhow = "*"
clap = { version = "*", features = ["derive"] }
opener = "*"
tree-sitter = "*"
tree-sitter-kotlin = "*"
walkdir = "*"
