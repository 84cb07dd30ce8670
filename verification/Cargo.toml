[package]
name = "respipe"
version = "0.1.0"
edition = "2021"
publish = false

[dependencies]
anyhow = "*"
crc = "*"
quick-xml = { version = "*", features = ["serialize"] }
serde = { version = "*", features = ["derive"] }
serde_json = "*"
serde_path_to_error = "*"
serde_yaml = "*"
walkdir = "*"
