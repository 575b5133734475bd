[package]
name = "pkg_parser"
version = "0.1.0"
edition = "2021"
publish = false

[dependencies]
bcndecode = "*"
image = { version = "0.25", default-features = false, features = ["png", "jpeg", "gif"] }
log = "0.4"
lz4_flex = "0.11"
serde = { version = "1", features = ["derive"] }
serde_json = "1"
