[package]
name = "files_to_prompt"
version = "0.1.0"
edition = "2021"
publish = false

[dependencies]
atty = "0.2"
clap = { version = "4", features = ["derive"] }
ignore = "0.4"
thiserror = "1"
