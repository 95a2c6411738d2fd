[package]
name = "cool_organizer"
version = "0.1.0"
edition = "2021"
publish = false

[dependencies]
datetime = "*"
clap = "2"
toml = "*"
serde = { version = "1", features = ["derive"] }
