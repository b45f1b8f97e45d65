[package]
name = "ayaka"
version = "0.1.0"
edition = "2021"
publish = false

[dependencies]
regex = "1"
unicode-width = "0.1"
icu_locid = "1"
serde = { version = "1", features = ["derive"] }
serde_yaml = "0.9"
