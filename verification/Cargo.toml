[package]
name = "bevy_color_lsp"
version = "0.1.1"
edition = "2021"
publish = false

[dependencies]
tree-sitter = "0.25"
tree-sitter-rust = "0.24"
palette = "0.7"
thiserror = "2"
tokio = { version = "1", features = ["rt-multi-thread", "macros", "io-std"] }
tower-lsp = "0.20"
zed_extension_api = "0.7"
