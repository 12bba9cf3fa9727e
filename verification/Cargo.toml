[package]
name = "celq"
version = "0.1.0"
edition = "2021"
publish = false

[dependencies]
cel = "*"
serde_json = "*"
rayon = "*"
clap = { version = "*", features = ["derive"] }
