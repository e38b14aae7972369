[package]
name = "loadgen"
version = "0.1.0"
edition = "2021"
publish = false

[dependencies]
tokio = { version = "*", features = ["full"] }
reqwest = { version = "*", default-features = false }
clap = { version = "*", features = ["derive"] }
crossterm = "*"
ratatui = "*"
plotters = { version = "*", default-features = false, features = ["bitmap_backend", "bitmap_encoder", "line_series"] }
tracing = "*"
tracing-subscriber = "*"
