[package]
name = "odbc_stream"
version = "0.1.0"
edition = "2021"
publish = false

[dependencies]
anyhow = "*"
odbc-api = "*"
rmp-serde = "*"
serde = { version = "*", features = ["derive"] }
serde_json = "*"
