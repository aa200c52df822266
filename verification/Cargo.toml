[package]
name = "organic_lsp"
version = "0.1.0"
edition = "2021"
publish = false

[dependencies]
rangemap = "1"
tower-lsp-server = "*"
tokio = { version = "1", features = ["rt-multi-thread", "macros", "io-std", "io-util", "net", "sync", "fs"] }
ordered-float = "*"
