[package]
name = "deno_loader"
version = "0.1.0"
edition = "2021"
publish = false

[dependencies]
anyhow = "*"
serde = { version = "*", features = ["derive"] }
serde_json = "*"
swc_core = { version = "*", features = ["ecma_ast", "ecma_visit", "ecma_plugin_transform"] }
url = "*"
