[package]
name = "mago_lines"
version = "0.1.0"
edition = "2021"
publish = false

[dependencies]
clap = { version = "4", features = ["derive"] }
colored = "3"
indoc = "2"
notify = "8"
serde_json = "1"
tracing = "0.1"
