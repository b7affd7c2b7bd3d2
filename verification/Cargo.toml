[package]
name = "shellcore"
version = "0.1.0"
edition = "2021"
publish = false

[dependencies]
chrono = "0.4"
whoami = "1"
rustyline = "9"
serde = { version = "1", features = ["derive"] }
toml = "0.5"
