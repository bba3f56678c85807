[package]
name = "restore_file_info"
version = "0.1.0"
edition = "2021"
publish = false

[dependencies]
anyhow = "1"
clap = { version = "4", features = ["derive"] }
duct = "0.13"
filetime = "0.2"
serde = { version = "1", features = ["derive"] }
serde_json = "1"
