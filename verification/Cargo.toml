[package]
name = "code_graph"
version = "0.1.0"
edition = "2021"
publish = false

[dependencies]
thiserror = "*"
tree-sitter = "*"
tree-sitter-cpp = "*"
tree-sitter-java = "*"
uuid = { version = "*", features = ["v4"] }
