[package]
name = "file_concatenator"
version = "0.1.0"
edition = "2021"
publish = false

[dependencies]
globset = "0.4"
termtree = "*"
clap = { version = "4", features = ["derive"] }
