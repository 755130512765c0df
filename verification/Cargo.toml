[package]
name = "bsp_schema"
version = "0.1.0"
edition = "2021"
publish = false

[dependencies]
vbsp = "*"
heck = "*"
clap = { version = "*", features = ["derive"] }
serde = { version = "*", features = ["derive"] }
serde_json = "*"
syn = { version = "*", features = ["full"] }
quote = "*"
proc-macro2 = "*"
tree-sitter = "*"
tree-sitter-cpp = "*"
walkdir = "*"
