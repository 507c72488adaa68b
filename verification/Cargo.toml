[package]
name = "saavy_dsp"
version = "0.1.0"
edition = "2021"
publish = false

[dependencies]
rtrb = "*"
serde = { version = "1", features = ["derive"] }
ratatui = { version = "*", default-features = false }
