[package]
name = "fonttools"
version = "0.1.0"
edition = "2021"
publish = false

[dependencies]
otspec = "*"
otspec_macros = "*"
serde = { version = "1", features = ["derive"] }
