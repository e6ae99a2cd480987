[package]
name = "goethite"
version = "0.1.0"
edition = "2021"
publish = false

[dependencies]
chrono = "0.4"
regex = "1"
hoedown = "6"
toml = "0.8"
serde = { version = "1", features = ["derive"] }
mustache = "0.9"
walkdir = "2"
docopt = "1"
