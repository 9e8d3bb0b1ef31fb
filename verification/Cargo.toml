[package]
name = "script_server"
version = "0.1.0"
edition = "2021"
publish = false

[dependencies]
anyhow = "1"
clap = { version = "4", features = ["derive"] }
http-types = "2"
json = "0.12"
smol = "1"
tempfile = "3"
tiny_http = "0.12"
