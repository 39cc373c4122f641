[package]
name = "markdown_ast"
version = "0.1.0"
edition = "2021"
publish = false

[dependencies]
anyhow = "1"
log = "0.4"
regex = "1"
serde = { version = "1", features = ["derive"] }
