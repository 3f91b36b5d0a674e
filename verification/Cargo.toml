[package]
name = "rest_cli"
version = "0.1.0"
edition = "2021"
publish = false

[dependencies]
ansi_term = "0.12"
colored_json = "2"
reqwest = { version = "0.12", features = ["blocking"] }
structopt = "0.3"
