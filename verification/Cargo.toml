[package]
name = "cargo_diagram"
version = "0.1.0"
edition = "2021"
publish = false

[dependencies]
syn = { version = "2", features = ["full", "visit"] }
clap = { version = "4", features = ["derive"] }
tracing = "0.1"
