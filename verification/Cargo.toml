[package]
name = "js2cpp"
version = "0.1.0"
edition = "2021"
publish = false

[dependencies]
anyhow = "=1.0.104"
clap = { version = "=4.6.7", features = ["derive"] }
serde = { version = "*", features = ["derive"] }
serde_json = "*"
swc_common = "=26.0.0"
swc_ecma_parser = "=45.1.6"
swc_ecma_visit = "=29.0.0"
